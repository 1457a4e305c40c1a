//! Reads pieces of a shred off its bytes, without parsing the whole.
use crate::{geometry, Digest, Signature, Slot, SIZE_OF_COMMON_SHRED_HEADER, SIZE_OF_SIGNATURE};
use crate::blockstore_meta::ErasureConfig;
use crate::bytes_util::{
    le_u16, le_u32, le_u64, read_array, read_u16, read_u32, read_u64, splice, write_at,
};
use crate::error::Error;
use crate::flags::{ShredFlags, SHRED_TICK_REFERENCE_MASK};
use crate::geometry::{chained_offset_of, payload_size, proof_offset_of, retransmitter_offset_of};
use crate::id::ShredId;
use crate::merkle::{get_part, slice_or_error};
use crate::model::{array_or_error, data_of, part_of, passed, root_of};
use crate::shred_code::ShredCode;
use crate::shred_data::ShredData;
use crate::shred_type::{variant_of_byte, ShredType, ShredVariant};
use vstd::prelude::*;

verus! {

/// The variant of a shred with the bytes `s`.
pub open spec fn variant_in(s: Seq<u8>) -> Result<ShredVariant, Error> {
    if s.len() <= 64 {
        Err(Error::InvalidPayloadSize(s.len() as usize))
    } else {
        match variant_of_byte(s[64]) {
            Some(variant) => Ok(variant),
            None => Err(Error::InvalidShredVariant),
        }
    }
}

/// The type of a shred with the bytes `s`.
pub open spec fn type_in(s: Seq<u8>) -> Result<ShredType, Error> {
    match variant_in(s) {
        Ok(variant) => Ok(variant.kind()),
        Err(e) => Err(e),
    }
}

/// The slot of a shred with the bytes `s`.
pub open spec fn slot_in(s: Seq<u8>) -> Option<Slot> {
    if s.len() < 73 {
        None
    } else {
        Some(le_u64(s, 65))
    }
}

/// The index of a shred with the bytes `s`.
pub open spec fn index_in(s: Seq<u8>) -> Option<u32> {
    if s.len() < 77 {
        None
    } else {
        Some(le_u32(s, 73))
    }
}

/// The version of a shred with the bytes `s`.
pub open spec fn version_in(s: Seq<u8>) -> Option<u16> {
    if s.len() < 79 {
        None
    } else {
        Some(le_u16(s, 77))
    }
}

/// The index of the first data shred of the batch of a shred with the bytes `s`.
pub open spec fn fec_set_index_in(s: Seq<u8>) -> Option<u32> {
    if s.len() < 83 {
        None
    } else {
        Some(le_u32(s, 79))
    }
}

/// The flags of a data shred with the bytes `s`.
pub open spec fn flags_in(s: Seq<u8>) -> Result<ShredFlags, Error> {
    match type_in(s) {
        Err(e) => Err(e),
        Ok(ShredType::Code) => Err(Error::InvalidShredType),
        Ok(ShredType::Data) => if s.len() <= 85 {
            Err(Error::InvalidPayloadSize(s.len() as usize))
        } else {
            Ok(ShredFlags { bits: s[85] })
        },
    }
}

/// The size of the erasure batch of a coding shred with the bytes `s`.
pub open spec fn erasure_config_in(s: Seq<u8>) -> Result<ErasureConfig, Error> {
    if type_in(s) == Ok::<_, Error>(ShredType::Data) {
        Err(Error::InvalidShredType)
    } else if s.len() < 87 {
        Err(Error::InvalidPayloadSize(s.len() as usize))
    } else {
        Ok(ErasureConfig { num_data: le_u16(s, 83) as usize, num_coding: le_u16(s, 85) as usize })
    }
}

/// The name of a shred with the bytes `s`.
pub open spec fn id_in(s: Seq<u8>) -> Option<ShredId> {
    match (slot_in(s), index_in(s), type_in(s)) {
        (Some(slot), Some(index), Ok(shred_type)) => Some(ShredId(slot, index, shred_type)),
        _ => None,
    }
}

/// The position in its batch that a shred with the bytes `s` claims.
pub open spec fn shard_index_in(s: Seq<u8>, kind: ShredType) -> Option<nat> {
    match kind {
        ShredType::Data => match (index_in(s), fec_set_index_in(s)) {
            (Some(index), Some(fec_set_index)) => if index >= fec_set_index {
                Some((index - fec_set_index) as nat)
            } else {
                None
            },
            _ => None,
        },
        ShredType::Code => if s.len() < 89 {
            None
        } else {
            Some((le_u16(s, 83) + le_u16(s, 87)) as nat)
        },
    }
}

/// The Merkle root of the batch of a shred with the bytes `s`.
pub open spec fn merkle_root_in(s: Seq<u8>, kind: ShredType, proof_size: u8, resigned: bool) -> Option<
    Seq<u8>,
> {
    match (shard_index_in(s, kind), proof_offset_of(kind, proof_size, resigned)) {
        (Some(index), Ok(offset)) => match root_of(s, index, offset as int, proof_size) {
            Ok(root) => Some(root),
            Err(_) => None,
        },
        _ => None,
    }
}

/// Where the retransmitter's signature of a shred with the bytes `s` starts.
pub open spec fn retransmitter_offset_in(s: Seq<u8>) -> Result<usize, Error> {
    match variant_in(s) {
        Ok(variant) => retransmitter_offset_of(
            variant.kind(),
            variant.entries(),
            variant.signed_again(),
        ),
        Err(e) => Err(e),
    }
}

/// The retransmitter's signature of a shred with the bytes `s`.
pub open spec fn retransmitter_signature_in(s: Seq<u8>) -> Result<Seq<u8>, Error> {
    match retransmitter_offset_in(s) {
        Ok(offset) => part_of(s, offset as int, SIZE_OF_SIGNATURE as int),
        Err(e) => Err(e),
    }
}

/// The bytes of an array that may be missing.
pub open spec fn array_or_none<const N: usize>(array: Option<[u8; N]>) -> Option<Seq<u8>> {
    match array {
        Some(array) => Some(array@),
        None => None,
    }
}

/// The size of the shred that a buffer starts with.
fn get_shred_size(shred: &[u8]) -> (size: Option<usize>)
    ensures
        size == match type_in(shred@) {
            Ok(kind) => Some(payload_size(kind)),
            Err(_) => None,
        },
{
    match get_shred_variant(shred) {
        Ok(variant) => Some(geometry::size_of_payload(ShredType::from(variant))),
        Err(_) => None,
    }
}

/// The shred that a buffer starts with.
pub fn get_shred_from_buf(buf: &[u8]) -> (shred: Option<&[u8]>)
    ensures
        match (type_in(buf@), shred) {
            (Ok(kind), Some(shred)) => payload_size(kind) <= buf@.len() && shred@ == buf@.take(
                payload_size(kind) as int,
            ),
            (Ok(kind), None) => payload_size(kind) > buf@.len(),
            (Err(_), _) => shred is None,
        },
{
    let size: usize = get_shred_size(buf)?;
    if size <= buf.len() {
        Some(&buf[0..size])
    } else {
        None
    }
}

/// The shred that a buffer starts with, to be written.
pub fn get_shred_mut(buffer: &mut [u8]) -> (shred: Option<&mut [u8]>)
    ensures
        match (type_in(old(buffer)@), shred) {
            (Ok(kind), Some(shred)) => {
                &&& payload_size(kind) <= old(buffer)@.len()
                &&& shred@ == old(buffer)@.take(payload_size(kind) as int)
                &&& final(buffer)@ == final(shred)@ + old(buffer)@.skip(payload_size(kind) as int)
            },
            (Ok(kind), None) => payload_size(kind) > old(buffer)@.len() && final(buffer)@ == old(
                buffer,
            )@,
            (Err(_), _) => shred is None && final(buffer)@ == old(buffer)@,
        },
{
    let size: usize = match get_shred_size(buffer) {
        Some(size) => size,
        None => return None,
    };
    if size > buffer.len() {
        return None;
    }
    let (shred, _) = buffer.split_at_mut(size);
    Some(shred)
}

/// The bytes of the common header.
pub fn get_common_header_bytes(shred: &[u8]) -> (bytes: Option<&[u8]>)
    ensures
        match bytes {
            Some(bytes) => shred@.len() >= SIZE_OF_COMMON_SHRED_HEADER && bytes@ == shred@.take(
                SIZE_OF_COMMON_SHRED_HEADER as int,
            ),
            None => shred@.len() < SIZE_OF_COMMON_SHRED_HEADER,
        },
{
    if shred.len() >= SIZE_OF_COMMON_SHRED_HEADER {
        Some(&shred[0..SIZE_OF_COMMON_SHRED_HEADER])
    } else {
        None
    }
}

/// The leader's signature.
pub fn get_signature(shred: &[u8]) -> (signature: Option<Signature>)
    ensures
        array_or_none(signature) == if shred@.len() >= SIZE_OF_SIGNATURE {
            Some(shred@.take(SIZE_OF_SIGNATURE as int))
        } else {
            None
        },
{
    if shred.len() >= SIZE_OF_SIGNATURE {
        let signature = read_array::<64>(shred, 0);
        assert(signature@ =~= shred@.take(SIZE_OF_SIGNATURE as int));
        Some(signature)
    } else {
        None
    }
}

pub fn get_shred_variant(shred: &[u8]) -> (variant: Result<ShredVariant, Error>)
    ensures
        variant == variant_in(shred@),
{
    if shred.len() <= 64 {
        return Err(Error::InvalidPayloadSize(shred.len()));
    }
    match ShredVariant::try_from(shred[64]) {
        Ok(variant) => Ok(variant),
        Err(_) => Err(Error::InvalidShredVariant),
    }
}

pub fn get_shred_type(shred: &[u8]) -> (shred_type: Result<ShredType, Error>)
    ensures
        shred_type == type_in(shred@),
{
    match get_shred_variant(shred) {
        Ok(variant) => Ok(ShredType::from(variant)),
        Err(e) => Err(e),
    }
}

pub fn get_slot(shred: &[u8]) -> (slot: Option<Slot>)
    ensures
        slot == slot_in(shred@),
{
    if shred.len() < 73 {
        None
    } else {
        Some(read_u64(shred, 65))
    }
}

pub fn get_index(shred: &[u8]) -> (index: Option<u32>)
    ensures
        index == index_in(shred@),
{
    if shred.len() < 77 {
        None
    } else {
        Some(read_u32(shred, 73))
    }
}

pub fn get_version(shred: &[u8]) -> (version: Option<u16>)
    ensures
        version == version_in(shred@),
{
    if shred.len() < 79 {
        None
    } else {
        Some(read_u16(shred, 77))
    }
}

pub fn get_fec_set_index(shred: &[u8]) -> (fec_set_index: Option<u32>)
    ensures
        fec_set_index == fec_set_index_in(shred@),
{
    if shred.len() < 83 {
        None
    } else {
        Some(read_u32(shred, 79))
    }
}

/// How many slots the parent lies back, if the shred is a data shred.
pub fn get_parent_offset(shred: &[u8]) -> (parent_offset: Option<u16>)
    ensures
        parent_offset == if shred@.len() < 85 {
            None
        } else {
            Some(le_u16(shred@, 83))
        },
{
    if shred.len() < 85 {
        None
    } else {
        Some(read_u16(shred, 83))
    }
}

/// The flags of a data shred; an error for a coding shred.
pub fn get_flags(shred: &[u8]) -> (flags: Result<ShredFlags, Error>)
    ensures
        flags == flags_in(shred@),
{
    match get_shred_type(shred) {
        Err(e) => Err(e),
        Ok(ShredType::Code) => Err(Error::InvalidShredType),
        Ok(ShredType::Data) => {
            if shred.len() <= 85 {
                return Err(Error::InvalidPayloadSize(shred.len()));
            }
            match ShredFlags::from_bits(shred[85]) {
                Some(flags) => Ok(flags),
                None => Err(Error::InvalidShredFlags(shred[85])),
            }
        },
    }
}

/// The size of the headers and the data, if the shred is a data shred.
fn get_data_size(shred: &[u8]) -> (size: Result<u16, Error>)
    ensures
        size == if shred@.len() < 88 {
            Err(Error::InvalidPayloadSize(shred@.len() as usize))
        } else {
            Ok(le_u16(shred@, 86))
        },
{
    if shred.len() < 88 {
        Err(Error::InvalidPayloadSize(shred.len()))
    } else {
        Ok(read_u16(shred, 86))
    }
}

/// The data of a data shred.
pub fn get_data(shred: &[u8]) -> (data: Result<&[u8], Error>)
    ensures
        slice_or_error(data) == match variant_in(shred@) {
            Err(e) => Err(e),
            Ok(ShredVariant::MerkleCode { .. }) => Err(Error::InvalidShredType),
            Ok(ShredVariant::MerkleData { proof_size, resigned }) => if shred@.len() < 88 {
                Err(Error::InvalidPayloadSize(shred@.len() as usize))
            } else {
                data_of(shred@, proof_size, resigned, le_u16(shred@, 86))
            },
        },
{
    match get_shred_variant(shred) {
        Err(e) => Err(e),
        Ok(ShredVariant::MerkleCode { .. }) => Err(Error::InvalidShredType),
        Ok(ShredVariant::MerkleData { proof_size, resigned }) => match get_data_size(shred) {
            Err(e) => Err(e),
            Ok(size) => ShredData::get_data(shred, proof_size, resigned, size),
        },
    }
}

/// The size of the erasure batch, which only coding shreds tell.
pub fn get_erasure_config(shred: &[u8]) -> (config: Result<ErasureConfig, Error>)
    requires
        type_in(shred@) is Ok,
    ensures
        config == erasure_config_in(shred@),
{
    match get_shred_type(shred) {
        Ok(ShredType::Code) => {},
        _ => return Err(Error::InvalidShredType),
    }
    if shred.len() < 87 {
        return Err(Error::InvalidPayloadSize(shred.len()));
    }
    Ok(
        ErasureConfig {
            num_data: read_u16(shred, 83) as usize,
            num_coding: read_u16(shred, 85) as usize,
        },
    )
}

pub fn get_shred_id(shred: &[u8]) -> (id: Option<ShredId>)
    ensures
        id == id_in(shred@),
{
    let slot: Slot = get_slot(shred)?;
    let index: u32 = get_index(shred)?;
    match get_shred_type(shred) {
        Ok(shred_type) => Some(ShredId(slot, index, shred_type)),
        Err(_) => None,
    }
}

/// The reference tick of a data shred; an error for a coding shred.
pub fn get_reference_tick(shred: &[u8]) -> (tick: Result<u8, Error>)
    ensures
        tick == match flags_in(shred@) {
            Ok(flags) => Ok(flags.bits & SHRED_TICK_REFERENCE_MASK),
            Err(e) => Err(e),
        },
{
    match get_shred_type(shred) {
        Err(e) => return Err(e),
        Ok(ShredType::Code) => return Err(Error::InvalidShredType),
        Ok(ShredType::Data) => {},
    }
    if shred.len() <= 85 {
        return Err(Error::InvalidPayloadSize(shred.len()));
    }
    Ok(shred[85] & SHRED_TICK_REFERENCE_MASK)
}

/// The Merkle root of the erasure batch.
pub fn get_merkle_root(shred: &[u8]) -> (root: Option<Digest>)
    ensures
        array_or_none(root) == match variant_in(shred@) {
            Ok(variant) => merkle_root_in(
                shred@,
                variant.kind(),
                variant.entries(),
                variant.signed_again(),
            ),
            Err(_) => None,
        },
{
    match get_shred_variant(shred) {
        Err(_) => None,
        Ok(ShredVariant::MerkleCode { proof_size, resigned }) => ShredCode::get_merkle_root(
            shred,
            proof_size,
            resigned,
        ),
        Ok(ShredVariant::MerkleData { proof_size, resigned }) => ShredData::get_merkle_root(
            shred,
            proof_size,
            resigned,
        ),
    }
}

/// The Merkle root of the previous erasure batch.
pub fn get_chained_merkle_root(shred: &[u8]) -> (root: Option<Digest>)
    ensures
        array_or_none(root) == match variant_in(shred@) {
            Ok(variant) => match chained_offset_of(
                variant.kind(),
                variant.entries(),
                variant.signed_again(),
            ) {
                Ok(offset) => match part_of(shred@, offset as int, 32) {
                    Ok(root) => Some(root),
                    Err(_) => None,
                },
                Err(_) => None,
            },
            Err(_) => None,
        },
{
    let offset = match get_shred_variant(shred) {
        Err(_) => return None,
        Ok(ShredVariant::MerkleCode { proof_size, resigned }) =>
            ShredCode::get_chained_merkle_root_offset(proof_size, resigned),
        Ok(ShredVariant::MerkleData { proof_size, resigned }) =>
            ShredData::get_chained_merkle_root_offset(proof_size, resigned),
    };
    match offset {
        Err(_) => None,
        Ok(offset) => match get_part::<32>(shred, offset) {
            Ok(root) => Some(root),
            Err(_) => None,
        },
    }
}

fn get_retransmitter_signature_offset(shred: &[u8]) -> (offset: Result<usize, Error>)
    ensures
        offset == retransmitter_offset_in(shred@),
{
    match get_shred_variant(shred) {
        Err(e) => Err(e),
        Ok(ShredVariant::MerkleCode { proof_size, resigned }) =>
            ShredCode::get_retransmitter_signature_offset(proof_size, resigned),
        Ok(ShredVariant::MerkleData { proof_size, resigned }) =>
            ShredData::get_retransmitter_signature_offset(proof_size, resigned),
    }
}

pub fn get_retransmitter_signature(shred: &[u8]) -> (signature: Result<Signature, Error>)
    ensures
        array_or_error(signature) == retransmitter_signature_in(shred@),
{
    match get_retransmitter_signature_offset(shred) {
        Ok(offset) => get_part::<64>(shred, offset),
        Err(e) => Err(e),
    }
}

/// Whether the shred is of a variant that ends with a retransmitter's signature.
pub fn is_retransmitter_signed_variant(shred: &[u8]) -> (resigned: Result<bool, Error>)
    ensures
        resigned == match variant_in(shred@) {
            Ok(variant) => Ok(variant.signed_again()),
            Err(e) => Err(e),
        },
{
    match get_shred_variant(shred) {
        Err(e) => Err(e),
        Ok(ShredVariant::MerkleCode { resigned, .. }) => Ok(resigned),
        Ok(ShredVariant::MerkleData { resigned, .. }) => Ok(resigned),
    }
}

pub fn set_retransmitter_signature(shred: &mut [u8], signature: &Signature) -> (done: Result<
    (),
    Error,
>)
    ensures
        done == passed(retransmitter_signature_in(old(shred)@)),
        final(shred)@ == if done is Ok {
            splice(
                old(shred)@,
                retransmitter_offset_in(old(shred)@)->Ok_0 as int,
                signature@,
            )
        } else {
            old(shred)@
        },
{
    let offset: usize = match get_retransmitter_signature_offset(shred) {
        Ok(offset) => offset,
        Err(e) => return Err(e),
    };
    if offset + SIZE_OF_SIGNATURE > shred.len() {
        return Err(Error::InvalidPayloadSize(shred.len()));
    }
    write_at(shred, offset, signature.as_slice());
    Ok(())
}

} // verus!
