//! Which shreds to discard on sight.
use crate::{
    wire, Slot, DATA_SHREDS_PER_FEC_BLOCK, MAX_CODE_SHREDS_PER_SLOT, MAX_DATA_SHREDS_PER_SLOT,
};
use crate::bytes_util::{le_u16, le_u64};
use crate::discard_laws::{
    code_is_in_place, data_is_in_place, ends_data_early, is_in_batch, is_wanted_code,
    is_wanted_data, kept_shreds_are_counted, one_more_code, one_more_data,
    wanted_shreds_in_place_are_kept, wanted_shreds_pass,
};
use crate::flags::{DATA_COMPLETE_SHRED, LAST_SHRED_IN_SLOT};
use crate::geometry::payload_size;
use crate::shred_type::{ShredType, ShredVariant};
use crate::stats::{Reason, ShredFetchStats};
use crate::wire::{
    erasure_config_in, fec_set_index_in, flags_in, index_in, slot_in, type_in, version_in,
};
use vstd::prelude::*;

verus! {

/// Whether a block in `slot` on top of one in `parent` can still matter when `root` is final.
pub open spec fn slots_fit(slot: Slot, parent: Slot, root: Slot) -> bool {
    (slot == 0 && parent == 0 && root == 0) || (root <= parent < slot)
}

/// Whether a shred with the given index can be one of the batch that starts at `fec_set_index`, if
/// all batches hold 32 data and 32 coding shreds.
pub open spec fn fits_fixed_fec_set(index: u32, fec_set_index: u32) -> bool {
    &&& fec_set_index + DATA_SHREDS_PER_FEC_BLOCK <= u32::MAX
    &&& fec_set_index <= index < fec_set_index + DATA_SHREDS_PER_FEC_BLOCK
    &&& fec_set_index % 32 == 0
}

/// Why to discard a coding shred with the bytes `s`, but for its place in the batch.
pub open spec fn code_rejection(s: Seq<u8>, root: Slot) -> Option<Reason> {
    if index_in(s)->0 >= MAX_CODE_SHREDS_PER_SLOT {
        Some(Reason::IndexOutOfBounds)
    } else if slot_in(s)->0 <= root {
        Some(Reason::SlotOutOfRange)
    } else {
        match erasure_config_in(s) {
            Err(_) => Some(Reason::ErasureConfigBadDeserialize),
            Ok(config) => if config.num_data == DATA_SHREDS_PER_FEC_BLOCK && config.num_coding
                == DATA_SHREDS_PER_FEC_BLOCK {
                None
            } else {
                Some(Reason::MisalignedErasureConfig)
            },
        }
    }
}

/// Why to discard a data shred with the bytes `s`, but for its flags and its place in the batch.
pub open spec fn data_rejection(s: Seq<u8>, root: Slot) -> Option<Reason> {
    let slot = slot_in(s)->0;
    let parent_offset = le_u16(s, 83);
    if index_in(s)->0 >= MAX_DATA_SHREDS_PER_SLOT {
        Some(Reason::IndexOutOfBounds)
    } else if s.len() < 85 || parent_offset > slot {
        Some(Reason::BadParentOffset)
    } else if !slots_fit(slot, (slot - parent_offset) as u64, root) {
        Some(Reason::SlotOutOfRange)
    } else if flags_in(s) is Err {
        Some(Reason::ShredFlagsBadDeserialize)
    } else {
        None
    }
}

/// Why to discard the shred that `buf` starts with, but for its flags and its place in the batch.
pub open spec fn early_rejection(
    buf: Seq<u8>,
    root: Slot,
    max_slot: Slot,
    shred_version: u16,
) -> Option<Reason> {
    match type_in(buf) {
        Err(_) => Some(Reason::IndexOverrun),
        Ok(kind) => if buf.len() < payload_size(kind) {
            Some(Reason::IndexOverrun)
        } else if version_in(buf) != Some(shred_version) {
            Some(Reason::ShredVersionMismatch)
        } else if slot_in(buf)->0 > max_slot {
            Some(Reason::SlotOutOfRange)
        } else {
            match kind {
                ShredType::Code => code_rejection(buf, root),
                ShredType::Data => data_rejection(buf, root),
            }
        },
    }
}

/// Whether `s` holds a data shred that completes its data before the end of its batch.
pub open spec fn completes_unexpectedly(s: Seq<u8>) -> bool {
    let fec_set_index = fec_set_index_in(s)->0;
    flags_in(s) matches Ok(flags) && flags.has(DATA_COMPLETE_SHRED) && !(fec_set_index
        + DATA_SHREDS_PER_FEC_BLOCK <= u32::MAX && index_in(s)->0 == fec_set_index
        + DATA_SHREDS_PER_FEC_BLOCK - 1)
}

/// Why to discard the shred with the bytes `s` for its flags or its place in the batch.
pub open spec fn late_rejection(s: Seq<u8>) -> Option<Reason> {
    let index = index_in(s)->0;
    if (flags_in(s) matches Ok(flags) && flags.has(LAST_SHRED_IN_SLOT)) && (index + 1) % 32 != 0 {
        Some(Reason::MisalignedLastDataIndex)
    } else if !fits_fixed_fec_set(index, fec_set_index_in(s)->0) {
        Some(Reason::MisalignedFecSet)
    } else {
        None
    }
}

/// The counters after the last checks.
pub open spec fn stats_after_late_checks(s: Seq<u8>, stats: ShredFetchStats) -> ShredFetchStats {
    match (late_rejection(s), type_in(s)) {
        (Some(reason), _) => stats.counted(reason),
        (None, Ok(ShredType::Code)) => stats.code_accepted(),
        (None, _) => stats.data_accepted(),
    }
}

/// Whether a block in `slot` on top of one in `parent` can still matter when `root` is final.
pub fn verify_shred_slots(slot: Slot, parent: Slot, root: Slot) -> (ok: bool)
    ensures
        ok == slots_fit(slot, parent, root),
        ok == (root <= parent < slot || (slot == 0 && parent == 0 && root == 0)),
{
    if slot == 0 && parent == 0 && root == 0 {
        return true;
    }
    root <= parent && parent < slot
}

/// Whether `index` and `fec_set_index` fit each other if all batches hold 32 data and 32 coding
/// shreds: the index is one of the 32 from `fec_set_index` on, which is a multiple of 32.
pub fn check_fixed_fec_set(index: u32, fec_set_index: u32) -> (ok: bool)
    ensures
        ok == fits_fixed_fec_set(index, fec_set_index),
        fec_set_index <= u32::MAX - 32 ==> ok == is_in_batch(index, fec_set_index),
        fec_set_index > u32::MAX - 32 ==> !ok,
{
    let Some(fec_set_end) = fec_set_index.checked_add(DATA_SHREDS_PER_FEC_BLOCK as u32) else {
        return false;
    };
    index >= fec_set_index && index < fec_set_end && fec_set_index % (
    DATA_SHREDS_PER_FEC_BLOCK as u32) == 0
}

/// Whether the last data shred of a slot can have the given index, if all batches hold 32 data
/// shreds.
pub fn check_last_data_shred_index(index: u32) -> (ok: bool)
    requires
        index < u32::MAX,
    ensures
        ok == ((index + 1) % 32 == 0),
{
    (index + 1) % (DATA_SHREDS_PER_FEC_BLOCK as u32) == 0
}

/// Whether to discard the shred that a buffer starts with. Accepts shreds of the slots from
/// `root + 1` to `max_slot`, and data shreds of slot 0 that are their own parent while the root is 0.
///
/// The predicate is asked only of the slot of a data shred that passed the checks of its size, version,
/// slot, index and parent, and that completes its data before the end of its batch.
pub fn should_discard_shred(
    shred: &[u8],
    root: Slot,
    max_slot: Slot,
    shred_version: u16,
    discard_unexpected_data_complete_shreds: impl Fn(Slot) -> bool,
    stats: &mut ShredFetchStats,
) -> (discard: bool)
    requires
        old(stats).can_count(),
        early_rejection(shred@, root, max_slot, shred_version) is None && completes_unexpectedly(
            shred@,
        ) ==> call_requires(discard_unexpected_data_complete_shreds, (slot_in(shred@)->0,)),
    ensures
        match early_rejection(shred@, root, max_slot, shred_version) {
            Some(reason) => discard && *final(stats) == old(stats).counted(reason),
            None => if !completes_unexpectedly(shred@) {
                discard == (late_rejection(shred@) is Some) && *final(stats)
                    == stats_after_late_checks(shred@, *old(stats))
            } else {
                let counted = old(stats).counted(Reason::UnexpectedDataCompleteShred);
                let slot = slot_in(shred@)->0;
                ||| call_ensures(discard_unexpected_data_complete_shreds, (slot,), true) && discard
                    && *final(stats) == counted
                ||| call_ensures(discard_unexpected_data_complete_shreds, (slot,), false) && discard
                    == (late_rejection(shred@) is Some) && *final(stats)
                    == stats_after_late_checks(shred@, counted)
            },
        },
        is_wanted_data(shred@, root, max_slot, shred_version) && data_is_in_place(shred@)
            && !ends_data_early(shred@) ==> !discard && *final(stats) == one_more_data(*old(stats)),
        is_wanted_code(shred@, root, max_slot, shred_version) && code_is_in_place(shred@) ==> !discard
            && *final(stats) == one_more_code(*old(stats)),
        !discard ==> (is_wanted_data(shred@, root, max_slot, shred_version) && data_is_in_place(
            shred@,
        )) || (is_wanted_code(shred@, root, max_slot, shred_version) && code_is_in_place(shred@)),
        is_wanted_data(shred@, root, max_slot, shred_version) && ends_data_early(shred@) ==> {
            let slot = le_u64(shred@, 65);
            ||| discard && call_ensures(discard_unexpected_data_complete_shreds, (slot,), true)
            ||| call_ensures(discard_unexpected_data_complete_shreds, (slot,), false) && discard
                == !data_is_in_place(shred@)
        },
{
    proof {
        wanted_shreds_pass(shred@, root, max_slot, shred_version);
        wanted_shreds_in_place_are_kept(shred@, root, max_slot, shred_version);
        kept_shreds_are_counted(shred@, root, max_slot, shred_version, *old(stats));
    }
    let ghost buf = shred@;
    let Some(shred) = wire::get_shred_from_buf(shred) else {
        stats.index_overrun += 1;
        return true;
    };
    proof {
        lemma_same_pieces(buf, shred@);
    }
    match wire::get_version(shred) {
        None => {
            stats.index_overrun += 1;
            return true;
        },
        Some(version) => {
            if version != shred_version {
                stats.shred_version_mismatch += 1;
                return true;
            }
        },
    }
    let Ok(shred_variant) = wire::get_shred_variant(shred) else {
        stats.bad_shred_type += 1;
        return true;
    };
    let slot: Slot = match wire::get_slot(shred) {
        Some(slot) => {
            if slot > max_slot {
                stats.slot_out_of_range += 1;
                return true;
            }
            slot
        },
        None => {
            stats.slot_bad_deserialize += 1;
            return true;
        },
    };
    let Some(index) = wire::get_index(shred) else {
        stats.index_bad_deserialize += 1;
        return true;
    };
    let Some(fec_set_index) = wire::get_fec_set_index(shred) else {
        stats.fec_set_index_bad_deserialize += 1;
        return true;
    };
    match ShredType::from(shred_variant) {
        ShredType::Code => {
            if index >= MAX_CODE_SHREDS_PER_SLOT as u32 {
                stats.index_out_of_bounds += 1;
                return true;
            }
            if slot <= root {
                stats.slot_out_of_range += 1;
                return true;
            }
            let Ok(erasure_config) = wire::get_erasure_config(shred) else {
                stats.erasure_config_bad_deserialize += 1;
                return true;
            };
            if !erasure_config.is_fixed() {
                stats.misaligned_erasure_config += 1;
                return true;
            }
        },
        ShredType::Data => {
            if index >= MAX_DATA_SHREDS_PER_SLOT as u32 {
                stats.index_out_of_bounds += 1;
                return true;
            }
            let Some(parent_offset) = wire::get_parent_offset(shred) else {
                stats.bad_parent_offset += 1;
                return true;
            };
            let Some(parent) = slot.checked_sub(parent_offset as u64) else {
                stats.bad_parent_offset += 1;
                return true;
            };
            if !verify_shred_slots(slot, parent, root) {
                stats.slot_out_of_range += 1;
                return true;
            }
            let Ok(shred_flags) = wire::get_flags(shred) else {
                stats.shred_flags_bad_deserialize += 1;
                return true;
            };
            let ends_batch = match fec_set_index.checked_add(DATA_SHREDS_PER_FEC_BLOCK as u32) {
                Some(end) => index == end - 1,
                None => false,
            };
            if shred_flags.contains(DATA_COMPLETE_SHRED) && !ends_batch {
                stats.unexpected_data_complete_shred += 1;
                if discard_unexpected_data_complete_shreds(slot) {
                    return true;
                }
            }
            if shred_flags.contains(LAST_SHRED_IN_SLOT) && !check_last_data_shred_index(index) {
                stats.misaligned_last_data_index += 1;
                return true;
            }
        },
    }
    if !check_fixed_fec_set(index, fec_set_index) {
        stats.misaligned_fec_set += 1;
        return true;
    }
    match shred_variant {
        ShredVariant::MerkleCode { .. } => {
            stats.num_shreds_merkle_code_chained = stats.num_shreds_merkle_code_chained.saturating_add(1);
        },
        ShredVariant::MerkleData { .. } => {
            stats.num_shreds_merkle_data_chained = stats.num_shreds_merkle_data_chained.saturating_add(1);
        },
    }
    false
}

/// The pieces of a shred are the same whether or not bytes follow it.
proof fn lemma_same_pieces(buf: Seq<u8>, shred: Seq<u8>)
    requires
        type_in(buf) is Ok,
        payload_size(type_in(buf)->Ok_0) <= buf.len(),
        shred == buf.take(payload_size(type_in(buf)->Ok_0) as int),
    ensures
        type_in(shred) == type_in(buf),
        version_in(shred) == version_in(buf),
        slot_in(shred) == slot_in(buf),
        index_in(shred) == index_in(buf),
        fec_set_index_in(shred) == fec_set_index_in(buf),
        le_u16(shred, 83) == le_u16(buf, 83),
        flags_in(shred) == flags_in(buf),
        erasure_config_in(shred) == erasure_config_in(buf),
{
}

/// A shred that is kept lies in the range of slots that was asked for, behind the root, but for the
/// first block of the ledger; its index fits its erasure batch, and data shreds have a parent at or
/// behind the root.
pub proof fn kept_shreds_are_in_range(
    buf: Seq<u8>,
    root: Slot,
    max_slot: Slot,
    shred_version: u16,
)
    requires
        early_rejection(buf, root, max_slot, shred_version) is None,
        late_rejection(buf) is None,
    ensures
        ({
            let slot = slot_in(buf)->0;
            &&& slot <= max_slot
            &&& root < slot || (slot == 0 && root == 0 && type_in(buf) == Ok::<_, crate::Error>(
                ShredType::Data,
            ))
            &&& version_in(buf) == Some(shred_version)
            &&& index_in(buf)->0 < MAX_DATA_SHREDS_PER_SLOT
            &&& fits_fixed_fec_set(index_in(buf)->0, fec_set_index_in(buf)->0)
            &&& type_in(buf) == Ok::<_, crate::Error>(ShredType::Data) && slot != 0 ==> root <= slot
                - le_u16(buf, 83) < slot
        }),
{
}

/// Bytes behind a shred make no difference to whether it is discarded.
pub proof fn trailing_bytes_do_not_matter(
    buf: Seq<u8>,
    more: Seq<u8>,
    root: Slot,
    max_slot: Slot,
    shred_version: u16,
)
    requires
        type_in(buf) matches Ok(kind) && payload_size(kind) <= buf.len(),
    ensures
        early_rejection(buf + more, root, max_slot, shred_version) == early_rejection(
            buf,
            root,
            max_slot,
            shred_version,
        ),
        completes_unexpectedly(buf + more) == completes_unexpectedly(buf),
        late_rejection(buf + more) == late_rejection(buf),
        slot_in(buf + more) == slot_in(buf),
{
    let kind = type_in(buf)->Ok_0;
    let shred = buf.take(payload_size(kind) as int);
    assert((buf + more).take(payload_size(kind) as int) =~= shred);
    lemma_same_pieces(buf, shred);
    lemma_same_pieces(buf + more, shred);
}

} // verus!
