//! What a shred is to the contracts: its headers and the bytes of its payload.
use crate::{
    Slot, DATA_SHREDS_PER_FEC_BLOCK, MAX_CODE_SHREDS_PER_SLOT, MAX_DATA_SHREDS_PER_SLOT,
    SIZE_OF_DATA_SHRED_HEADERS, SIZE_OF_SIGNATURE,
};
use crate::crypto::sha256;
use crate::error::{Error, ShredHeaders};
use crate::flags::{DATA_COMPLETE_SHRED, LAST_SHRED_IN_SLOT};
use crate::geometry::{
    capacity_of, chained_offset_of, params_of, payload_size, proof_offset_of,
    retransmitter_offset_of, shard_start,
};
use crate::header::{CodingShredHeader, DataShredHeader, ShredCommonHeader};
use crate::merkle_tree::{
    root_of_proof, MERKLE_HASH_PREFIX_LEAF, SIZE_OF_MERKLE_PROOF_ENTRY, SIZE_OF_MERKLE_ROOT,
};
use crate::shred_type::ShredType;
use vstd::prelude::*;

verus! {

/// The `len` bytes of `s` from `start` on, if there are so many.
pub open spec fn part_of(s: Seq<u8>, start: int, len: int) -> Result<Seq<u8>, Error> {
    if start + len <= s.len() {
        Ok(s.subrange(start, start + len))
    } else {
        Err(Error::InvalidPayloadSize(s.len() as usize))
    }
}

/// The Merkle proof of `proof_size` entries that starts at `offset` of `s`.
pub open spec fn proof_of(s: Seq<u8>, offset: int, proof_size: u8) -> Result<Seq<Seq<u8>>, Error> {
    if offset + proof_size * SIZE_OF_MERKLE_PROOF_ENTRY <= s.len() {
        Ok(
            Seq::new(
                proof_size as nat,
                |i: int|
                    s.subrange(
                        offset + i * SIZE_OF_MERKLE_PROOF_ENTRY,
                        offset + i * SIZE_OF_MERKLE_PROOF_ENTRY + SIZE_OF_MERKLE_PROOF_ENTRY,
                    ),
            ),
        )
    } else {
        Err(Error::InvalidPayloadSize(s.len() as usize))
    }
}

/// The leaf of the Merkle tree for a shred with the bytes `s`, of which those from `start` up to
/// `end` are hashed.
pub open spec fn node_of(s: Seq<u8>, start: int, end: int) -> Result<Seq<u8>, Error> {
    if start <= end <= s.len() {
        Ok(sha256(MERKLE_HASH_PREFIX_LEAF@ + s.subrange(start, end)))
    } else {
        Err(Error::InvalidPayloadSize(s.len() as usize))
    }
}

/// The root that the proof and the leaf of a shred with the bytes `s` lead to.
pub open spec fn root_of(s: Seq<u8>, index: nat, proof_offset: int, proof_size: u8) -> Result<
    Seq<u8>,
    Error,
> {
    match proof_of(s, proof_offset, proof_size) {
        Err(e) => Err(e),
        Ok(branch) => match node_of(s, SIZE_OF_SIGNATURE as int, proof_offset) {
            Err(e) => Err(e),
            Ok(node) => root_of_proof(index, node, branch),
        },
    }
}

/// The data of a data shred with the bytes `s`, where `size` counts the headers and the data.
pub open spec fn data_of(s: Seq<u8>, proof_size: u8, resigned: bool, size: u16) -> Result<
    Seq<u8>,
    Error,
> {
    match capacity_of(ShredType::Data, proof_size, resigned) {
        Err(e) => Err(e),
        Ok(capacity) => if SIZE_OF_DATA_SHRED_HEADERS <= size <= SIZE_OF_DATA_SHRED_HEADERS
            + capacity && size <= s.len() {
            Ok(s.subrange(SIZE_OF_DATA_SHRED_HEADERS as int, size as int))
        } else {
            Err(Error::InvalidDataSize { size, payload: s.len() as usize })
        },
    }
}

/// A result but for its value.
pub open spec fn passed<T>(result: Result<T, Error>) -> Result<(), Error> {
    match result {
        Ok(_) => Ok(()),
        Err(e) => Err(e),
    }
}

/// The bytes of an array, or the error in its place.
pub open spec fn array_or_error<const N: usize>(array: Result<[u8; N], Error>) -> Result<
    Seq<u8>,
    Error,
> {
    match array {
        Ok(array) => Ok(array@),
        Err(e) => Err(e),
    }
}

/// The position of a data shred in its erasure batch; `None` if the batch starts behind it.
pub open spec fn data_shard_index(common_header: ShredCommonHeader) -> Option<usize> {
    if common_header.index >= common_header.fec_set_index {
        Some((common_header.index - common_header.fec_set_index) as usize)
    } else {
        None
    }
}

/// The index of the first coding shred of the batch; `None` if it were negative.
pub open spec fn first_coding_index_of(
    common_header: ShredCommonHeader,
    coding_header: CodingShredHeader,
) -> Option<u32> {
    if common_header.index >= coding_header.position {
        Some((common_header.index - coding_header.position) as u32)
    } else {
        None
    }
}

/// The position of a coding shred in its erasure batch; `None` if the batch holds no data shred or
/// no coding shred, goes beyond the last index of a slot, or ends before that position.
pub open spec fn code_shard_index(
    common_header: ShredCommonHeader,
    coding_header: CodingShredHeader,
) -> Option<usize> {
    let num_data = coding_header.num_data_shreds;
    let num_coding = coding_header.num_coding_shreds;
    if num_data >= 1 && num_coding >= 1 && common_header.fec_set_index + num_data
        <= MAX_DATA_SHREDS_PER_SLOT && coding_header.position <= common_header.index
        && common_header.index - coding_header.position + num_coding <= MAX_CODE_SHREDS_PER_SLOT
        && coding_header.position < num_coding {
        Some((num_data + coding_header.position) as usize)
    } else {
        None
    }
}

/// The slot of the block that the block of `slot` follows.
pub open spec fn parent_of(slot: Slot, parent_offset: u16) -> Result<Slot, Error> {
    if parent_offset <= slot && (parent_offset != 0 || slot == 0) {
        Ok((slot - parent_offset) as u64)
    } else {
        Err(Error::InvalidParentOffset { slot, parent_offset })
    }
}

/// The headers and the bytes of a shred.
#[verifier::ext_equal]
pub struct ShredView {
    pub headers: ShredHeaders,
    pub payload: Seq<u8>,
}

impl ShredView {
    pub open spec fn kind(self) -> ShredType {
        match self.headers {
            ShredHeaders::Data(..) => ShredType::Data,
            ShredHeaders::Code(..) => ShredType::Code,
        }
    }

    pub open spec fn common(self) -> ShredCommonHeader {
        match self.headers {
            ShredHeaders::Data(common_header, _) => common_header,
            ShredHeaders::Code(common_header, _) => common_header,
        }
    }

    /// The proof size and whether there is a retransmitter's signature.
    pub open spec fn params(self) -> Result<(u8, bool), Error> {
        params_of(self.kind(), self.common().shred_variant)
    }

    pub open spec fn proof_offset(self) -> Result<usize, Error> {
        match self.params() {
            Ok((proof_size, resigned)) => proof_offset_of(self.kind(), proof_size, resigned),
            Err(e) => Err(e),
        }
    }

    pub open spec fn chained_merkle_root_offset(self) -> Result<usize, Error> {
        match self.params() {
            Ok((proof_size, resigned)) => chained_offset_of(self.kind(), proof_size, resigned),
            Err(e) => Err(e),
        }
    }

    pub open spec fn retransmitter_signature_offset(self) -> Result<usize, Error> {
        match self.params() {
            Ok((proof_size, resigned)) => retransmitter_offset_of(
                self.kind(),
                proof_size,
                resigned,
            ),
            Err(e) => Err(e),
        }
    }

    /// The Merkle root of the previous erasure batch.
    pub open spec fn chained_merkle_root(self) -> Result<Seq<u8>, Error> {
        match self.chained_merkle_root_offset() {
            Ok(offset) => part_of(self.payload, offset as int, SIZE_OF_MERKLE_ROOT as int),
            Err(e) => Err(e),
        }
    }

    pub open spec fn retransmitter_signature(self) -> Result<Seq<u8>, Error> {
        match self.retransmitter_signature_offset() {
            Ok(offset) => part_of(self.payload, offset as int, SIZE_OF_SIGNATURE as int),
            Err(e) => Err(e),
        }
    }

    pub open spec fn merkle_proof(self) -> Result<Seq<Seq<u8>>, Error> {
        match (self.params(), self.proof_offset()) {
            (Err(e), _) => Err(e),
            (Ok(_), Err(e)) => Err(e),
            (Ok((proof_size, _)), Ok(offset)) => proof_of(self.payload, offset as int, proof_size),
        }
    }

    /// The leaf of the shred in the Merkle tree of its batch.
    pub open spec fn merkle_node(self) -> Result<Seq<u8>, Error> {
        match self.proof_offset() {
            Ok(offset) => node_of(self.payload, SIZE_OF_SIGNATURE as int, offset as int),
            Err(e) => Err(e),
        }
    }

    /// The position of the shred in its erasure batch.
    pub open spec fn erasure_shard_index(self) -> Result<usize, Error> {
        let index = match self.headers {
            ShredHeaders::Data(common_header, _) => data_shard_index(common_header),
            ShredHeaders::Code(common_header, coding_header) => code_shard_index(
                common_header,
                coding_header,
            ),
        };
        match index {
            Some(index) => Ok(index),
            None => Err(Error::InvalidErasureShardIndex(Box::new(self.headers))),
        }
    }

    /// The Merkle root of the erasure batch, which is what the leader signs.
    pub open spec fn merkle_root(self) -> Result<Seq<u8>, Error> {
        match (self.params(), self.erasure_shard_index(), self.proof_offset()) {
            (Err(e), _, _) => Err(e),
            (Ok(_), Err(e), _) => Err(e),
            (Ok(_), Ok(_), Err(e)) => Err(e),
            (Ok((proof_size, _)), Ok(index), Ok(offset)) => root_of(
                self.payload,
                index as nat,
                offset as int,
                proof_size,
            ),
        }
    }

    /// Where the erasure coded part starts and ends.
    pub open spec fn erasure_shard_offsets(self) -> Result<(usize, usize), Error> {
        if self.payload.len() != payload_size(self.kind()) {
            Err(Error::InvalidPayloadSize(self.payload.len() as usize))
        } else {
            match self.chained_merkle_root_offset() {
                Ok(offset) => Ok((shard_start(self.kind()), offset)),
                Err(e) => Err(e),
            }
        }
    }

    /// The erasure coded part.
    pub open spec fn erasure_shard(self) -> Result<Seq<u8>, Error> {
        match self.erasure_shard_offsets() {
            Ok((start, end)) => part_of(self.payload, start as int, end - start),
            Err(e) => Err(e),
        }
    }

    /// The data of a data shred.
    pub open spec fn data(self) -> Result<Seq<u8>, Error> {
        match (self.headers, self.params()) {
            (ShredHeaders::Code(..), _) => Err(Error::InvalidShredType),
            (ShredHeaders::Data(_, data_header), Ok((proof_size, resigned))) => data_of(
                self.payload,
                proof_size,
                resigned,
                data_header.size,
            ),
            (ShredHeaders::Data(..), Err(e)) => Err(e),
        }
    }

    /// The slot of the parent block, which only data shreds tell.
    pub open spec fn parent(self) -> Result<Slot, Error> {
        match self.headers {
            ShredHeaders::Code(..) => Err(Error::InvalidShredType),
            ShredHeaders::Data(common_header, data_header) => parent_of(
                common_header.slot,
                data_header.parent_offset,
            ),
        }
    }

    /// What is wrong with a data shred whose proof is in place, if anything.
    pub open spec fn sanitize_data(self, data_header: DataShredHeader) -> Result<(), Error> {
        let flags = data_header.flags;
        if self.payload.len() != payload_size(ShredType::Data) {
            Err(Error::InvalidPayloadSize(self.payload.len() as usize))
        } else if self.common().index >= MAX_DATA_SHREDS_PER_SLOT {
            Err(Error::InvalidShredIndex(ShredType::Data, self.common().index))
        } else if flags.bits & LAST_SHRED_IN_SLOT != 0 && !flags.has(DATA_COMPLETE_SHRED) {
            Err(Error::InvalidShredFlags(flags.bits))
        } else if self.data() is Err {
            passed(self.data())
        } else if self.parent() is Err {
            passed(self.parent())
        } else if self.erasure_shard_index() is Err {
            passed(self.erasure_shard_index())
        } else {
            passed(self.erasure_shard())
        }
    }

    /// What is wrong with a coding shred whose proof is in place, if anything.
    pub open spec fn sanitize_code(self, coding_header: CodingShredHeader) -> Result<(), Error> {
        if self.payload.len() != payload_size(ShredType::Code) {
            Err(Error::InvalidPayloadSize(self.payload.len() as usize))
        } else if self.common().index >= MAX_CODE_SHREDS_PER_SLOT {
            Err(Error::InvalidShredIndex(ShredType::Code, self.common().index))
        } else if coding_header.num_coding_shreds > 8 * DATA_SHREDS_PER_FEC_BLOCK {
            Err(Error::InvalidNumCodingShreds(coding_header.num_coding_shreds))
        } else if self.erasure_shard_index() is Err {
            passed(self.erasure_shard_index())
        } else {
            passed(self.erasure_shard())
        }
    }

    /// What is wrong with the shred, if anything.
    pub open spec fn sanitize(self) -> Result<(), Error> {
        match (self.merkle_proof(), self.headers) {
            (Err(e), _) => Err(e),
            (Ok(_), ShredHeaders::Data(_, data_header)) => self.sanitize_data(data_header),
            (Ok(_), ShredHeaders::Code(_, coding_header)) => self.sanitize_code(coding_header),
        }
    }

    /// Whether byte `k` of the payload is one of the Merkle proof.
    pub open spec fn in_proof(self, k: int) -> bool {
        match (self.params(), self.proof_offset()) {
            (Ok((proof_size, _)), Ok(offset)) => offset <= k < offset + proof_size
                * SIZE_OF_MERKLE_PROOF_ENTRY,
            _ => false,
        }
    }

    /// Whether two shreds differ at most in the bytes of the Merkle proof.
    pub open spec fn same_but_proof(self, other: ShredView) -> bool {
        &&& self.headers == other.headers
        &&& self.payload.len() == other.payload.len()
        &&& forall|k: int|
            0 <= k < self.payload.len() && !self.in_proof(k) ==> #[trigger] self.payload[k]
                == other.payload[k]
    }
}

} // verus!
