//! Where the parts of a shred lie in its payload.
//!
//! A payload holds, in a row: the headers, the data or the erasure coded shard, the Merkle root of
//! the previous erasure batch, the Merkle proof, and the retransmitter's signature if there is one.
use crate::{
    PACKET_DATA_SIZE, SIZE_OF_CODING_SHRED_HEADERS, SIZE_OF_DATA_SHRED_HEADERS, SIZE_OF_NONCE,
    SIZE_OF_SIGNATURE,
};
use crate::error::Error;
use crate::merkle_tree::{SIZE_OF_MERKLE_PROOF_ENTRY, SIZE_OF_MERKLE_ROOT};
use crate::shred_type::{ShredType, ShredVariant};
use vstd::prelude::*;

verus! {

/// The size of a coding shred: what a packet holds but for the nonce.
pub const SIZE_OF_CODING_PAYLOAD: usize = 1228;

/// The size of a data shred: what of a coding shred is not header, and the signature.
pub const SIZE_OF_DATA_PAYLOAD: usize = 1203;

/// The size of the payload of a shred.
pub open spec fn payload_size(kind: ShredType) -> usize {
    match kind {
        ShredType::Data => SIZE_OF_DATA_PAYLOAD,
        ShredType::Code => SIZE_OF_CODING_PAYLOAD,
    }
}

/// The size of the headers of a shred.
pub open spec fn headers_size(kind: ShredType) -> usize {
    match kind {
        ShredType::Data => SIZE_OF_DATA_SHRED_HEADERS,
        ShredType::Code => SIZE_OF_CODING_SHRED_HEADERS,
    }
}

/// Where the erasure coded part of a shred starts: all of a data shred behind the signature is
/// coded, but only what is behind the headers of a coding shred is code.
pub open spec fn shard_start(kind: ShredType) -> usize {
    match kind {
        ShredType::Data => SIZE_OF_SIGNATURE,
        ShredType::Code => SIZE_OF_CODING_SHRED_HEADERS,
    }
}

/// The size of the Merkle proof.
pub open spec fn proof_bytes(proof_size: u8) -> int {
    proof_size * SIZE_OF_MERKLE_PROOF_ENTRY
}

/// The size of the retransmitter's signature.
pub open spec fn signature_bytes(resigned: bool) -> int {
    if resigned {
        SIZE_OF_SIGNATURE as int
    } else {
        0
    }
}

/// How many bytes are left for the data or the shard.
pub open spec fn capacity_of(kind: ShredType, proof_size: u8, resigned: bool) -> Result<
    usize,
    Error,
> {
    let used = headers_size(kind) + SIZE_OF_MERKLE_ROOT + proof_bytes(proof_size) + signature_bytes(
        resigned,
    );
    if used <= payload_size(kind) {
        Ok((payload_size(kind) - used) as usize)
    } else {
        Err(Error::InvalidProofSize(proof_size))
    }
}

/// Where the Merkle root of the previous erasure batch starts.
pub open spec fn chained_offset_of(kind: ShredType, proof_size: u8, resigned: bool) -> Result<
    usize,
    Error,
> {
    match capacity_of(kind, proof_size, resigned) {
        Ok(capacity) => Ok((headers_size(kind) + capacity) as usize),
        Err(e) => Err(e),
    }
}

/// Where the Merkle proof starts.
pub open spec fn proof_offset_of(kind: ShredType, proof_size: u8, resigned: bool) -> Result<
    usize,
    Error,
> {
    match capacity_of(kind, proof_size, resigned) {
        Ok(capacity) => Ok((headers_size(kind) + capacity + SIZE_OF_MERKLE_ROOT) as usize),
        Err(e) => Err(e),
    }
}

/// Where the retransmitter's signature starts.
pub open spec fn retransmitter_offset_of(kind: ShredType, proof_size: u8, resigned: bool) -> Result<
    usize,
    Error,
> {
    if !resigned {
        Err(Error::InvalidShredVariant)
    } else {
        match proof_offset_of(kind, proof_size, resigned) {
            Ok(offset) => Ok((offset + proof_bytes(proof_size)) as usize),
            Err(e) => Err(e),
        }
    }
}

/// The proof size and whether there is a retransmitter's signature, if the variant is one of shreds
/// of the given type.
pub open spec fn params_of(kind: ShredType, variant: ShredVariant) -> Result<(u8, bool), Error> {
    if variant.kind() == kind {
        Ok((variant.entries(), variant.signed_again()))
    } else {
        Err(Error::InvalidShredVariant)
    }
}

/// The parts of a payload follow each other, and the last one ends with the payload.
pub proof fn parts_fill_the_payload(kind: ShredType, proof_size: u8, resigned: bool)
    ensures
        capacity_of(kind, proof_size, resigned) matches Ok(capacity) ==> {
            let chained = headers_size(kind) + capacity;
            let branch = chained + SIZE_OF_MERKLE_ROOT;
            let signature = branch + proof_bytes(proof_size);
            &&& shard_start(kind) <= headers_size(kind)
            &&& chained_offset_of(kind, proof_size, resigned) == Ok::<_, Error>(chained as usize)
            &&& proof_offset_of(kind, proof_size, resigned) == Ok::<_, Error>(branch as usize)
            &&& resigned ==> retransmitter_offset_of(kind, proof_size, resigned) == Ok::<_, Error>(
                signature as usize,
            )
            &&& signature + signature_bytes(resigned) == payload_size(kind)
        },
{
}

/// The erasure coded parts of a data and a coding shred with proofs of one size are of one length.
/// There is room for them whenever the proof size fits the variant byte.
pub proof fn shards_are_of_one_length(proof_size: u8, resigned: bool)
    ensures
        match (
            chained_offset_of(ShredType::Data, proof_size, resigned),
            chained_offset_of(ShredType::Code, proof_size, resigned),
        ) {
            (Ok(data), Ok(code)) => data - shard_start(ShredType::Data) == code - shard_start(
                ShredType::Code,
            ),
            _ => proof_size >= 16,
        },
{
}

/// The size of the payload of a shred.
pub fn size_of_payload(kind: ShredType) -> (size: usize)
    ensures
        size == payload_size(kind),
{
    match kind {
        ShredType::Code => PACKET_DATA_SIZE - SIZE_OF_NONCE,
        ShredType::Data => PACKET_DATA_SIZE - SIZE_OF_NONCE - SIZE_OF_CODING_SHRED_HEADERS
            + SIZE_OF_SIGNATURE,
    }
}

/// The size of the headers of a shred.
pub fn size_of_headers(kind: ShredType) -> (size: usize)
    ensures
        size == headers_size(kind),
{
    match kind {
        ShredType::Data => SIZE_OF_DATA_SHRED_HEADERS,
        ShredType::Code => SIZE_OF_CODING_SHRED_HEADERS,
    }
}

/// Where the erasure coded part of a shred starts.
pub fn erasure_shard_start_offset(kind: ShredType) -> (offset: usize)
    ensures
        offset == shard_start(kind),
{
    match kind {
        ShredType::Data => SIZE_OF_SIGNATURE,
        ShredType::Code => SIZE_OF_CODING_SHRED_HEADERS,
    }
}

/// How many bytes are left for the data or the shard.
pub fn capacity(kind: ShredType, proof_size: u8, resigned: bool) -> (capacity: Result<usize, Error>)
    ensures
        capacity == capacity_of(kind, proof_size, resigned),
{
    let signature: usize = if resigned {
        SIZE_OF_SIGNATURE
    } else {
        0
    };
    let used: usize = size_of_headers(kind) + SIZE_OF_MERKLE_ROOT + (proof_size as usize)
        * SIZE_OF_MERKLE_PROOF_ENTRY + signature;
    match size_of_payload(kind).checked_sub(used) {
        Some(capacity) => Ok(capacity),
        None => Err(Error::InvalidProofSize(proof_size)),
    }
}

/// Where the Merkle root of the previous erasure batch starts.
pub fn get_chained_merkle_root_offset(kind: ShredType, proof_size: u8, resigned: bool) -> (offset:
    Result<usize, Error>)
    ensures
        offset == chained_offset_of(kind, proof_size, resigned),
{
    match capacity(kind, proof_size, resigned) {
        Ok(capacity) => Ok(size_of_headers(kind) + capacity),
        Err(e) => Err(e),
    }
}

/// Where the Merkle proof starts.
pub fn get_proof_offset(kind: ShredType, proof_size: u8, resigned: bool) -> (offset: Result<
    usize,
    Error,
>)
    ensures
        offset == proof_offset_of(kind, proof_size, resigned),
{
    match capacity(kind, proof_size, resigned) {
        Ok(capacity) => Ok(size_of_headers(kind) + capacity + SIZE_OF_MERKLE_ROOT),
        Err(e) => Err(e),
    }
}

/// Where the retransmitter's signature starts.
pub fn get_retransmitter_signature_offset(kind: ShredType, proof_size: u8, resigned: bool) -> (offset:
    Result<usize, Error>)
    ensures
        offset == retransmitter_offset_of(kind, proof_size, resigned),
{
    if !resigned {
        return Err(Error::InvalidShredVariant);
    }
    match get_proof_offset(kind, proof_size, resigned) {
        Ok(offset) => Ok(offset + (proof_size as usize) * SIZE_OF_MERKLE_PROOF_ENTRY),
        Err(e) => Err(e),
    }
}

/// The proof size and whether there is a retransmitter's signature, if the variant is one of shreds
/// of the given type.
pub fn variant_params(kind: ShredType, variant: ShredVariant) -> (params: Result<(u8, bool), Error>)
    ensures
        params == params_of(kind, variant),
{
    match (kind, variant) {
        (ShredType::Data, ShredVariant::MerkleData { proof_size, resigned }) => Ok(
            (proof_size, resigned),
        ),
        (ShredType::Code, ShredVariant::MerkleCode { proof_size, resigned }) => Ok(
            (proof_size, resigned),
        ),
        _ => Err(Error::InvalidShredVariant),
    }
}

} // verus!
