//! Which shreds are kept, by their bytes.
use crate::Slot;
use crate::bytes_util::{le_u16, le_u32, le_u64};
use crate::discard::{
    completes_unexpectedly, early_rejection, fits_fixed_fec_set, late_rejection, slots_fit,
    stats_after_late_checks,
};
use crate::format_laws::variant_bytes;
use crate::stats::{Reason, ShredFetchStats};
use vstd::prelude::*;

verus! {

/// Whether an index is one of the 32 of the batch that starts at a multiple of 32.
pub open spec fn is_in_batch(index: u32, fec_set_index: u32) -> bool {
    fec_set_index % 32 == 0 && fec_set_index <= index <= fec_set_index + 31
}

/// Whether `s` starts with a data shred of a wanted version and slot, with an index below 32768 and a
/// parent between the root and the slot, or of the first block of the ledger.
pub open spec fn is_wanted_data(s: Seq<u8>, root: Slot, max_slot: Slot, shred_version: u16) -> bool {
    let slot = le_u64(s, 65);
    let parent_offset = le_u16(s, 83);
    &&& s.len() >= 1203
    &&& 0x90 <= s[64] < 0xa0 || 0xb0 <= s[64] < 0xc0
    &&& le_u16(s, 77) == shred_version
    &&& slot <= max_slot
    &&& le_u32(s, 73) < 32_768
    &&& 1 <= parent_offset && root + parent_offset <= slot || (slot == 0 && root == 0
        && parent_offset == 0)
}

/// Whether `s` starts with a coding shred of a wanted version and slot, with an index below 32768, of a
/// batch of 32 data and 32 coding shreds.
pub open spec fn is_wanted_code(s: Seq<u8>, root: Slot, max_slot: Slot, shred_version: u16) -> bool {
    &&& s.len() >= 1228
    &&& 0x60 <= s[64] < 0x80
    &&& le_u16(s, 77) == shred_version
    &&& root < le_u64(s, 65) <= max_slot
    &&& le_u32(s, 73) < 32_768
    &&& le_u16(s, 83) == 32
    &&& le_u16(s, 85) == 32
}

/// Whether the data shred that `s` starts with completes its data though it is not the last of its
/// batch.
pub open spec fn ends_data_early(s: Seq<u8>) -> bool {
    s[85] % 128 >= 64 && le_u32(s, 73) != le_u32(s, 79) + 31
}

/// Whether the data shred that `s` starts with is in its place: in its batch, and at the end of it if
/// it is the last of its slot.
pub open spec fn data_is_in_place(s: Seq<u8>) -> bool {
    &&& is_in_batch(le_u32(s, 73), le_u32(s, 79))
    &&& s[85] >= 192 ==> le_u32(s, 73) % 32 == 31
}

/// Whether the coding shred that `s` starts with is in its place.
pub open spec fn code_is_in_place(s: Seq<u8>) -> bool {
    is_in_batch(le_u32(s, 73), le_u32(s, 79))
}

proof fn lemma_flag_bits(bits: u8)
    ensures
        bits & 0b0100_0000 == 0b0100_0000 <==> bits % 128 >= 64,
        bits & 0b1100_0000 == 0b1100_0000 <==> bits >= 192,
{
    assert(bits & 0b0100_0000 == 0b0100_0000 <==> bits % 128 >= 64) by (bit_vector);
    assert(bits & 0b1100_0000 == 0b1100_0000 <==> bits >= 192) by (bit_vector);
}

/// The first checks let through wanted shreds and no others.
pub proof fn wanted_shreds_pass(s: Seq<u8>, root: Slot, max_slot: Slot, shred_version: u16)
    ensures
        early_rejection(s, root, max_slot, shred_version) is None <==> is_wanted_data(
            s,
            root,
            max_slot,
            shred_version,
        ) || is_wanted_code(s, root, max_slot, shred_version),
{
    if s.len() > 64 {
        variant_bytes(s[64]);
    }
}

/// Of wanted shreds the predicate is asked just if a data shred ends its data early; the last checks
/// let through shreds in their place and no others.
pub proof fn wanted_shreds_in_place_are_kept(
    s: Seq<u8>,
    root: Slot,
    max_slot: Slot,
    shred_version: u16,
)
    ensures
        is_wanted_data(s, root, max_slot, shred_version) ==> {
            &&& completes_unexpectedly(s) <==> ends_data_early(s)
            &&& late_rejection(s) is None <==> data_is_in_place(s)
        },
        is_wanted_code(s, root, max_slot, shred_version) ==> {
            &&& !completes_unexpectedly(s)
            &&& late_rejection(s) is None <==> code_is_in_place(s)
        },
{
    if s.len() > 85 {
        variant_bytes(s[64]);
        lemma_flag_bits(s[85]);
    }
}

/// What a shred is counted as that the first checks reject: the first reason there is.
pub proof fn early_reasons(s: Seq<u8>, root: Slot, max_slot: Slot, shred_version: u16)
    ensures
        ({
            let data = s.len() >= 1203 && (0x90 <= s[64] < 0xa0 || 0xb0 <= s[64] < 0xc0);
            let code = s.len() >= 1228 && 0x60 <= s[64] < 0x80;
            let reason = early_rejection(s, root, max_slot, shred_version);
            let slot = le_u64(s, 65);
            let parent_offset = le_u16(s, 83);
            let expected = le_u16(s, 77) == shred_version;
            &&& !data && !code <==> reason == Some(Reason::IndexOverrun)
            &&& (data || code) && !expected <==> reason == Some(Reason::ShredVersionMismatch)
            &&& (data || code) && expected && slot <= max_slot && le_u32(s, 73) >= 32_768
                <==> reason == Some(Reason::IndexOutOfBounds)
            &&& data && expected && slot <= max_slot && le_u32(s, 73) < 32_768 && parent_offset > slot
                <==> reason == Some(Reason::BadParentOffset)
            &&& code && expected && root < slot <= max_slot && le_u32(s, 73) < 32_768 && (le_u16(s, 83)
                != 32 || le_u16(s, 85) != 32) <==> reason == Some(Reason::MisalignedErasureConfig)
            &&& reason == Some(Reason::SlotOutOfRange) <==> (data || code) && expected && (slot
                > max_slot || (code && le_u32(s, 73) < 32_768 && slot <= root) || (data && le_u32(s, 73)
                < 32_768 && parent_offset <= slot && !(slot == 0 && root == 0 && parent_offset == 0)
                && (parent_offset == 0 || slot - parent_offset < root)))
        }),
{
    if s.len() > 64 {
        variant_bytes(s[64]);
    }
}

/// What a shred is counted as that only the last checks reject.
pub proof fn late_reasons(s: Seq<u8>, root: Slot, max_slot: Slot, shred_version: u16)
    ensures
        is_wanted_data(s, root, max_slot, shred_version) ==> {
            &&& s[85] >= 192 && le_u32(s, 73) % 32 != 31 <==> late_rejection(s) == Some(
                Reason::MisalignedLastDataIndex,
            )
            &&& !(s[85] >= 192 && le_u32(s, 73) % 32 != 31) && !data_is_in_place(s)
                <==> late_rejection(s) == Some(Reason::MisalignedFecSet)
        },
        is_wanted_code(s, root, max_slot, shred_version) ==> (!code_is_in_place(s)
            <==> late_rejection(s) == Some(Reason::MisalignedFecSet)),
{
    if s.len() > 85 {
        variant_bytes(s[64]);
        lemma_flag_bits(s[85]);
    }
}

/// Counting adds one to one counter and keeps all others.
pub proof fn one_counter_counts(stats: ShredFetchStats)
    requires
        stats.can_count(),
    ensures
        ({
            let s = stats;
            &&& s.counted(Reason::IndexOverrun) == (ShredFetchStats {
                index_overrun: (s.index_overrun + 1) as usize,
                ..s
            })
            &&& s.counted(Reason::ShredVersionMismatch) == (ShredFetchStats {
                shred_version_mismatch: (s.shred_version_mismatch + 1) as usize,
                ..s
            })
            &&& s.counted(Reason::SlotOutOfRange) == (ShredFetchStats {
                slot_out_of_range: (s.slot_out_of_range + 1) as usize,
                ..s
            })
            &&& s.counted(Reason::IndexOutOfBounds) == (ShredFetchStats {
                index_out_of_bounds: (s.index_out_of_bounds + 1) as usize,
                ..s
            })
            &&& s.counted(Reason::MisalignedErasureConfig) == (ShredFetchStats {
                misaligned_erasure_config: (s.misaligned_erasure_config + 1) as usize,
                ..s
            })
            &&& s.counted(Reason::BadParentOffset) == (ShredFetchStats {
                bad_parent_offset: (s.bad_parent_offset + 1) as usize,
                ..s
            })
            &&& s.counted(Reason::UnexpectedDataCompleteShred) == (ShredFetchStats {
                unexpected_data_complete_shred: (s.unexpected_data_complete_shred + 1) as usize,
                ..s
            })
            &&& s.counted(Reason::MisalignedLastDataIndex) == (ShredFetchStats {
                misaligned_last_data_index: (s.misaligned_last_data_index + 1) as usize,
                ..s
            })
            &&& s.counted(Reason::MisalignedFecSet) == (ShredFetchStats {
                misaligned_fec_set: (s.misaligned_fec_set + 1) as usize,
                ..s
            })
        }),
        0 < stats.index_overrun + 1 <= usize::MAX,
        0 < stats.shred_version_mismatch + 1 <= usize::MAX,
        0 < stats.slot_out_of_range + 1 <= usize::MAX,
        0 < stats.index_out_of_bounds + 1 <= usize::MAX,
        0 < stats.misaligned_erasure_config + 1 <= usize::MAX,
        0 < stats.bad_parent_offset + 1 <= usize::MAX,
        0 < stats.unexpected_data_complete_shred + 1 <= usize::MAX,
        0 < stats.misaligned_last_data_index + 1 <= usize::MAX,
        0 < stats.misaligned_fec_set + 1 <= usize::MAX,
{
}

/// One more data shred kept.
pub open spec fn one_more_data(stats: ShredFetchStats) -> ShredFetchStats {
    let n = stats.num_shreds_merkle_data_chained;
    ShredFetchStats {
        num_shreds_merkle_data_chained: if n == usize::MAX {
            n
        } else {
            (n + 1) as usize
        },
        ..stats
    }
}

/// One more coding shred kept.
pub open spec fn one_more_code(stats: ShredFetchStats) -> ShredFetchStats {
    let n = stats.num_shreds_merkle_code_chained;
    ShredFetchStats {
        num_shreds_merkle_code_chained: if n == usize::MAX {
            n
        } else {
            (n + 1) as usize
        },
        ..stats
    }
}

/// A kept shred is counted as one of its type, and as nothing else.
pub proof fn kept_shreds_are_counted(
    s: Seq<u8>,
    root: Slot,
    max_slot: Slot,
    shred_version: u16,
    stats: ShredFetchStats,
)
    ensures
        is_wanted_data(s, root, max_slot, shred_version) && data_is_in_place(s)
            ==> stats_after_late_checks(s, stats) == one_more_data(stats),
        is_wanted_code(s, root, max_slot, shred_version) && code_is_in_place(s)
            ==> stats_after_late_checks(s, stats) == one_more_code(stats),
{
    wanted_shreds_in_place_are_kept(s, root, max_slot, shred_version);
    if s.len() > 64 {
        variant_bytes(s[64]);
    }
}

/// Whether slots and indices fit, in numbers.
pub proof fn slots_and_indices_fit(slot: Slot, parent: Slot, root: Slot, index: u32, fec_set_index: u32)
    ensures
        root <= parent < slot ==> slots_fit(slot, parent, root),
        parent >= slot && slot > 0 ==> !slots_fit(slot, parent, root),
        parent < root ==> !slots_fit(slot, parent, root),
        slots_fit(0, 0, 0),
        parent == slot && root > 0 ==> !slots_fit(slot, parent, root),
        is_in_batch(index, fec_set_index) && fec_set_index <= u32::MAX - 32 ==> fits_fixed_fec_set(
            index,
            fec_set_index,
        ),
        !is_in_batch(index, fec_set_index) ==> !fits_fixed_fec_set(index, fec_set_index),
{
}

} // verus!
