//! Data shreds.
use crate::{geometry, wire, Digest, Signature, Slot, MAX_DATA_SHREDS_PER_SLOT, SIZE_OF_SIGNATURE};
use crate::bytes_util::splice;
use crate::error::{Error, ShredHeaders};
use crate::flags::{DATA_COMPLETE_SHRED, LAST_SHRED_IN_SLOT, SHRED_TICK_REFERENCE_MASK};
use crate::format_laws::tail_size;
use crate::geometry::{capacity_of, chained_offset_of, proof_offset_of, retransmitter_offset_of};
use crate::header::{data_headers_of, deserialize_data_headers, DataShredHeader, ShredCommonHeader};
use crate::merkle::{
    entries_or_error, get_merkle_node, get_merkle_proof, get_merkle_root, get_part, set_part,
    set_proof, slice_or_error, write_proof_result, written_proof,
};
use crate::merkle_tree::{digest_or_error, entries, MerkleProofEntry};
use crate::model::{array_or_error, data_of, passed, ShredView};
use crate::payload::{Payload, PayloadMutGuard};
use crate::shred_laws::data_headers_make_sense;
use crate::shred_type::{ShredType, ShredVariant};
use crate::wire::{array_or_none, merkle_root_in};
use std::ops::Range;
use vstd::prelude::*;

verus! {

/// A data shred.
#[derive(Debug)]
pub struct ShredData {
    pub(crate) common_header: ShredCommonHeader,
    pub(crate) data_header: DataShredHeader,
    pub(crate) payload: Payload,
}

impl View for ShredData {
    type V = ShredView;

    open(crate) spec fn view(&self) -> ShredView {
        ShredView {
            headers: ShredHeaders::Data(self.common_header, self.data_header),
            payload: self.payload@,
        }
    }
}

impl Clone for ShredData {
    fn clone(&self) -> (shred: ShredData)
        ensures
            shred@ == self@,
    {
        ShredData {
            common_header: self.common_header,
            data_header: self.data_header,
            payload: self.payload.clone(),
        }
    }
}

impl PartialEq for ShredData {
    fn eq(&self, other: &ShredData) -> (eq: bool) {
        self.common_header == other.common_header && self.data_header == other.data_header
            && self.payload == other.payload
    }
}

impl Eq for ShredData {

}

impl vstd::std_specs::cmp::PartialEqSpecImpl for ShredData {
    open spec fn obeys_eq_spec() -> bool {
        true
    }

    open spec fn eq_spec(&self, other: &ShredData) -> bool {
        self@ == other@
    }
}

impl ShredData {
    pub const SIZE_OF_PAYLOAD: usize = 1203;

    pub const SIZE_OF_HEADERS: usize = 88;

    /// Where the erasure coded part of the payload starts.
    pub const ERASURE_SHARD_START_OFFSET: usize = 64;

    /// How many bytes are left for the data.
    pub fn capacity(proof_size: u8, resigned: bool) -> (capacity: Result<usize, Error>)
        ensures
            capacity == capacity_of(ShredType::Data, proof_size, resigned),
    {
        geometry::capacity(ShredType::Data, proof_size, resigned)
    }

    pub fn get_proof_offset(proof_size: u8, resigned: bool) -> (offset: Result<usize, Error>)
        ensures
            offset == proof_offset_of(ShredType::Data, proof_size, resigned),
    {
        geometry::get_proof_offset(ShredType::Data, proof_size, resigned)
    }

    pub fn get_chained_merkle_root_offset(proof_size: u8, resigned: bool) -> (offset: Result<
        usize,
        Error,
    >)
        ensures
            offset == chained_offset_of(ShredType::Data, proof_size, resigned),
    {
        geometry::get_chained_merkle_root_offset(ShredType::Data, proof_size, resigned)
    }

    pub fn get_retransmitter_signature_offset(proof_size: u8, resigned: bool) -> (offset: Result<
        usize,
        Error,
    >)
        ensures
            offset == retransmitter_offset_of(ShredType::Data, proof_size, resigned),
    {
        geometry::get_retransmitter_signature_offset(ShredType::Data, proof_size, resigned)
    }

    /// The common header.
    pub fn common_header(&self) -> (header: &ShredCommonHeader)
        ensures
            *header == self@.common(),
    {
        &self.common_header
    }

    pub fn payload(&self) -> (payload: &Payload)
        ensures
            payload@ == self@.payload,
    {
        &self.payload
    }

    pub fn into_payload(self) -> (payload: Payload)
        ensures
            payload@ == self@.payload,
    {
        self.payload
    }

    /// Sets the signature in the header and in the payload.
    pub fn set_signature(&mut self, signature: Signature)
        requires
            old(self)@.payload.len() >= SIZE_OF_SIGNATURE,
        ensures
            final(self)@ == (ShredView {
                headers: ShredHeaders::Data(
                    ShredCommonHeader { signature, ..old(self)@.common() },
                    old(self)@.headers->Data_1,
                ),
                payload: splice(old(self)@.payload, 0, signature@),
            }),
    {
        let _ = set_part(&mut self.payload, 0, signature.as_slice());
        self.common_header.signature = signature;
    }

    pub fn proof_size(&self) -> (proof_size: Result<u8, Error>)
        ensures
            proof_size == match self@.params() {
                Ok((proof_size, _)) => Ok(proof_size),
                Err(e) => Err(e),
            },
    {
        match self.common_header.shred_variant {
            ShredVariant::MerkleData { proof_size, .. } => Ok(proof_size),
            _ => Err(Error::InvalidShredVariant),
        }
    }

    pub fn proof_offset(&self) -> (offset: Result<usize, Error>)
        ensures
            offset == self@.proof_offset(),
    {
        let ShredVariant::MerkleData { proof_size, resigned } = self.common_header.shred_variant else {
            return Err(Error::InvalidShredVariant);
        };
        Self::get_proof_offset(proof_size, resigned)
    }

    pub fn chained_merkle_root_offset(&self) -> (offset: Result<usize, Error>)
        ensures
            offset == self@.chained_merkle_root_offset(),
    {
        let ShredVariant::MerkleData { proof_size, resigned } = self.common_header.shred_variant else {
            return Err(Error::InvalidShredVariant);
        };
        Self::get_chained_merkle_root_offset(proof_size, resigned)
    }

    pub fn retransmitter_signature_offset(&self) -> (offset: Result<usize, Error>)
        ensures
            offset == self@.retransmitter_signature_offset(),
    {
        let ShredVariant::MerkleData { proof_size, resigned } = self.common_header.shred_variant else {
            return Err(Error::InvalidShredVariant);
        };
        Self::get_retransmitter_signature_offset(proof_size, resigned)
    }

    /// The Merkle root of the previous erasure batch.
    pub fn chained_merkle_root(&self) -> (root: Result<Digest, Error>)
        ensures
            array_or_error(root) == self@.chained_merkle_root(),
    {
        match self.chained_merkle_root_offset() {
            Ok(offset) => get_part::<32>(self.payload.as_slice(), offset),
            Err(e) => Err(e),
        }
    }

    pub fn set_chained_merkle_root(&mut self, chained_merkle_root: &Digest) -> (done: Result<
        (),
        Error,
    >)
        ensures
            done == passed(old(self)@.chained_merkle_root()),
            final(self)@ == if done is Ok {
                ShredView {
                    payload: splice(
                        old(self)@.payload,
                        old(self)@.chained_merkle_root_offset()->Ok_0 as int,
                        chained_merkle_root@,
                    ),
                    ..old(self)@
                }
            } else {
                old(self)@
            },
    {
        match self.chained_merkle_root_offset() {
            Ok(offset) => set_part(&mut self.payload, offset, chained_merkle_root.as_slice()),
            Err(e) => Err(e),
        }
    }

    pub fn retransmitter_signature(&self) -> (signature: Result<Signature, Error>)
        ensures
            array_or_error(signature) == self@.retransmitter_signature(),
    {
        match self.retransmitter_signature_offset() {
            Ok(offset) => get_part::<64>(self.payload.as_slice(), offset),
            Err(e) => Err(e),
        }
    }

    pub fn set_retransmitter_signature(&mut self, signature: &Signature) -> (done: Result<
        (),
        Error,
    >)
        ensures
            done == passed(old(self)@.retransmitter_signature()),
            final(self)@ == if done is Ok {
                ShredView {
                    payload: splice(
                        old(self)@.payload,
                        old(self)@.retransmitter_signature_offset()->Ok_0 as int,
                        signature@,
                    ),
                    ..old(self)@
                }
            } else {
                old(self)@
            },
    {
        match self.retransmitter_signature_offset() {
            Ok(offset) => set_part(&mut self.payload, offset, signature.as_slice()),
            Err(e) => Err(e),
        }
    }

    /// The Merkle root of the erasure batch.
    pub fn merkle_root(&self) -> (root: Result<Digest, Error>)
        ensures
            digest_or_error(root) == self@.merkle_root(),
    {
        let proof_size: u8 = match self.proof_size() {
            Ok(proof_size) => proof_size,
            Err(e) => return Err(e),
        };
        let index: usize = match self.erasure_shard_index() {
            Ok(index) => index,
            Err(e) => return Err(e),
        };
        match self.proof_offset() {
            Ok(offset) => get_merkle_root(self.payload.as_slice(), index, offset, proof_size),
            Err(e) => Err(e),
        }
    }

    pub fn merkle_proof(&self) -> (branch: Result<Vec<MerkleProofEntry>, Error>)
        ensures
            entries_or_error(branch) == self@.merkle_proof(),
    {
        let proof_size: u8 = match self.proof_size() {
            Ok(proof_size) => proof_size,
            Err(e) => return Err(e),
        };
        match self.proof_offset() {
            Ok(offset) => get_merkle_proof(self.payload.as_slice(), offset, proof_size),
            Err(e) => Err(e),
        }
    }

    /// The leaf of the shred in the Merkle tree of its batch.
    pub fn merkle_node(&self) -> (node: Result<Digest, Error>)
        ensures
            digest_or_error(node) == self@.merkle_node(),
    {
        match self.proof_offset() {
            Ok(offset) => get_merkle_node(self.payload.as_slice(), SIZE_OF_SIGNATURE, offset),
            Err(e) => Err(e),
        }
    }

    /// Writes a proof to the payload. If it has too many or too few entries, the error comes after
    /// as many as fit were written.
    pub fn set_merkle_proof(&mut self, branch: &[MerkleProofEntry]) -> (done: Result<(), Error>)
        requires
            old(self)@.proof_offset() matches Ok(offset) ==> offset <= old(self)@.payload.len(),
        ensures
            match (old(self)@.params(), old(self)@.proof_offset()) {
                (Ok((proof_size, _)), Ok(offset)) => {
                    let room = (old(self)@.payload.len() - offset) as nat;
                    &&& done == write_proof_result(entries(branch@), proof_size, room)
                    &&& final(self)@ == (ShredView {
                        payload: splice(
                            old(self)@.payload,
                            offset as int,
                            written_proof(entries(branch@), proof_size, room),
                        ),
                        ..old(self)@
                    })
                },
                _ => {
                    &&& done == passed(old(self)@.proof_offset())
                    &&& final(self)@ == old(self)@
                },
            },
    {
        let proof_size: u8 = match self.proof_size() {
            Ok(proof_size) => proof_size,
            Err(e) => return Err(e),
        };
        match self.proof_offset() {
            Ok(offset) => set_proof(&mut self.payload, offset, proof_size, branch),
            Err(e) => Err(e),
        }
    }

    /// Where the erasure coded part starts and ends.
    pub fn erasure_shard_offsets(&self) -> (offsets: Result<Range<usize>, Error>)
        ensures
            match offsets {
                Ok(offsets) => self@.erasure_shard_offsets() == Ok::<_, Error>(
                    (offsets.start, offsets.end),
                ),
                Err(e) => self@.erasure_shard_offsets() == Err::<(usize, usize), _>(e),
            },
    {
        let len: usize = self.payload.as_slice().len();
        if len != Self::SIZE_OF_PAYLOAD {
            return Err(Error::InvalidPayloadSize(len));
        }
        match self.chained_merkle_root_offset() {
            Ok(offset) => Ok(Self::ERASURE_SHARD_START_OFFSET..offset),
            Err(e) => Err(e),
        }
    }

    /// The erasure coded part.
    pub fn erasure_shard(&self) -> (shard: Result<&[u8], Error>)
        ensures
            slice_or_error(shard) == self@.erasure_shard(),
    {
        match self.erasure_shard_offsets() {
            Ok(offsets) => Ok(&self.payload.as_slice()[offsets.start..offsets.end]),
            Err(e) => Err(e),
        }
    }

    /// The erasure coded part, to be written.
    pub fn erasure_shard_mut<'a>(&'a mut self) -> (shard: Result<PayloadMutGuard<'a>, Error>)
        ensures
            match shard {
                Ok(guard) => {
                    &&& old(self)@.erasure_shard_offsets() == Ok::<_, Error>(
                        (guard.slice_index.start, guard.slice_index.end),
                    )
                    &&& guard.contents() == old(self)@.payload
                    &&& final(self)@.headers == old(self)@.headers
                    &&& final(self)@.payload == final(guard.payload)@
                },
                Err(e) => old(self)@.erasure_shard_offsets() == Err::<(usize, usize), _>(e)
                    && final(self)@ == old(self)@,
            },
    {
        let len: usize = self.payload.as_slice().len();
        match self.erasure_shard_offsets() {
            Err(e) => Err(e),
            Ok(offsets) => match self.payload.get_mut(offsets) {
                Some(guard) => Ok(guard),
                None => Err(Error::InvalidPayloadSize(len)),
            },
        }
    }

    /// What the leader signs.
    pub fn signed_data(&self) -> (data: Result<Digest, Error>)
        ensures
            digest_or_error(data) == self@.merkle_root(),
    {
        self.merkle_root()
    }

    /// The data shred that a payload holds, whether or not it makes sense.
    pub open spec fn parsed(payload: Seq<u8>) -> Result<ShredView, Error> {
        if payload.len() < Self::SIZE_OF_PAYLOAD {
            Err(Error::InvalidPayloadSize(payload.len() as usize))
        } else {
            let payload = payload.take(Self::SIZE_OF_PAYLOAD as int);
            match data_headers_of(payload) {
                Ok((common_header, data_header)) => Ok(
                    ShredView { headers: ShredHeaders::Data(common_header, data_header), payload },
                ),
                Err(e) => Err(Error::WincodeRead(e)),
            }
        }
    }

    /// Reads the headers of a data shred and checks nothing of what they say.
    pub fn from_payload_unchecked(payload: Payload) -> (shred: Result<ShredData, Error>)
        ensures
            data_shred_or_error(shred) == Self::parsed(payload@),
    {
        let mut payload = payload;
        let len: usize = payload.as_slice().len();
        if len < Self::SIZE_OF_PAYLOAD {
            return Err(Error::InvalidPayloadSize(len));
        }
        let ghost whole = payload@;
        payload.truncate(Self::SIZE_OF_PAYLOAD);
        assert(payload@ =~= whole.take(Self::SIZE_OF_PAYLOAD as int));
        match deserialize_data_headers(payload.as_slice()) {
            Ok((common_header, data_header)) => Ok(
                ShredData { common_header, data_header, payload },
            ),
            Err(e) => Err(Error::WincodeRead(e)),
        }
    }

    /// The data shred that a payload holds, if it makes sense.
    pub open spec fn read(payload: Seq<u8>) -> Result<ShredView, Error> {
        match Self::parsed(payload) {
            Ok(parsed) => match parsed.sanitize() {
                Ok(_) => Ok(parsed),
                Err(e) => Err(e),
            },
            Err(e) => Err(e),
        }
    }

    /// Reads a data shred and checks it.
    pub fn from_payload(payload: Payload) -> (shred: Result<ShredData, Error>)
        ensures
            data_shred_or_error(shred) == Self::read(payload@),
    {
        let shred = match Self::from_payload_unchecked(payload) {
            Ok(shred) => shred,
            Err(e) => return Err(e),
        };
        if !matches!(shred.common_header.shred_variant, ShredVariant::MerkleData { .. }) {
            return Err(Error::InvalidShredVariant);
        }
        match shred.sanitize() {
            Ok(_) => Ok(shred),
            Err(e) => Err(e),
        }
    }

    /// The position of the shred in its erasure batch.
    pub fn erasure_shard_index(&self) -> (index: Result<usize, Error>)
        ensures
            index == self@.erasure_shard_index(),
    {
        match self.common_header.index.checked_sub(self.common_header.fec_set_index) {
            Some(index) => Ok(index as usize),
            None => Err(
                Error::InvalidErasureShardIndex(
                    Box::new(ShredHeaders::Data(self.common_header, self.data_header)),
                ),
            ),
        }
    }

    /// Checks that the shred makes sense.
    pub fn sanitize(&self) -> (checked: Result<(), Error>)
        ensures
            checked == self@.sanitize(),
    {
        if !matches!(self.common_header.shred_variant, ShredVariant::MerkleData { .. }) {
            return Err(Error::InvalidShredVariant);
        }
        match self.merkle_proof() {
            Ok(_) => {},
            Err(e) => return Err(e),
        }
        let len: usize = self.payload.as_slice().len();
        if len != Self::SIZE_OF_PAYLOAD {
            return Err(Error::InvalidPayloadSize(len));
        }
        if self.common_header.index as usize >= MAX_DATA_SHREDS_PER_SLOT {
            return Err(Error::InvalidShredIndex(ShredType::Data, self.common_header.index));
        }
        let flags = self.data_header.flags;
        if flags.intersects(LAST_SHRED_IN_SLOT) && !flags.contains(DATA_COMPLETE_SHRED) {
            return Err(Error::InvalidShredFlags(flags.bits()));
        }
        match self.data() {
            Ok(_) => {},
            Err(e) => return Err(e),
        }
        match self.parent() {
            Ok(_) => {},
            Err(e) => return Err(e),
        }
        match self.erasure_shard_index() {
            Ok(_) => {},
            Err(e) => return Err(e),
        }
        match self.erasure_shard() {
            Ok(_) => Ok(()),
            Err(e) => Err(e),
        }
    }

    pub fn data_header(&self) -> (header: &DataShredHeader)
        ensures
            *header == self@.headers->Data_1,
    {
        &self.data_header
    }

    /// The data.
    pub fn data(&self) -> (data: Result<&[u8], Error>)
        ensures
            slice_or_error(data) == self@.data(),
            data matches Ok(data) ==> {
                let size = self@.headers->Data_1.size;
                &&& 88 <= size <= self@.payload.len()
                &&& data@ == self@.payload.subrange(88, size as int)
            },
            data_headers_make_sense(self@.headers->Data_0, self@.headers->Data_1)
                && self@.payload.len() == 1203 ==> data is Ok,
    {
        let ShredVariant::MerkleData { proof_size, resigned } = self.common_header.shred_variant else {
            return Err(Error::InvalidShredVariant);
        };
        Self::get_data(self.payload.as_slice(), proof_size, resigned, self.data_header.size)
    }

    /// The slot of the parent block.
    pub fn parent(&self) -> (parent: Result<Slot, Error>)
        ensures
            parent == self@.parent(),
            ({
                let slot = self@.headers->Data_0.slot;
                let offset = self@.headers->Data_1.parent_offset;
                &&& 1 <= offset <= slot ==> parent == Ok::<_, Error>((slot - offset) as u64)
                &&& offset > slot || (offset == 0 && slot > 0) ==> parent is Err
                &&& offset == 0 && slot == 0 ==> parent == Ok::<_, Error>(0u64)
            }),
    {
        let slot: Slot = self.common_header.slot;
        let parent_offset: u16 = self.data_header.parent_offset;
        if parent_offset == 0 && slot != 0 {
            return Err(Error::InvalidParentOffset { slot, parent_offset });
        }
        match slot.checked_sub(parent_offset as u64) {
            Some(parent) => Ok(parent),
            None => Err(Error::InvalidParentOffset { slot, parent_offset }),
        }
    }

    /// The data of a data shred with the given bytes.
    pub fn get_data(shred: &[u8], proof_size: u8, resigned: bool, size: u16) -> (data: Result<
        &[u8],
        Error,
    >)
        ensures
            slice_or_error(data) == data_of(shred@, proof_size, resigned, size),
            data matches Ok(data) ==> 88 <= size && data@.len() == size - 88 && (forall|i: int|
                0 <= i < data@.len() ==> #[trigger] data@[i] == shred@[88 + i]),
            88 <= size <= shred@.len() && size + tail_size(proof_size, resigned) <= 1203
                ==> data is Ok,
            data is Ok ==> 88 <= size <= shred@.len() && size + tail_size(proof_size, resigned)
                <= 1203,
    {
        let capacity: usize = match Self::capacity(proof_size, resigned) {
            Ok(capacity) => capacity,
            Err(e) => return Err(e),
        };
        let end: usize = size as usize;
        if Self::SIZE_OF_HEADERS <= end && end <= Self::SIZE_OF_HEADERS + capacity && end
            <= shred.len() {
            Ok(&shred[Self::SIZE_OF_HEADERS..end])
        } else {
            Err(Error::InvalidDataSize { size, payload: shred.len() })
        }
    }

    /// The Merkle root of the batch of a data shred with the given bytes.
    pub fn get_merkle_root(shred: &[u8], proof_size: u8, resigned: bool) -> (root: Option<Digest>)
        ensures
            array_or_none(root) == merkle_root_in(
                shred@,
                ShredType::Data,
                proof_size,
                resigned,
            ),
    {
        let fec_set_index: u32 = wire::get_fec_set_index(shred)?;
        let index: u32 = wire::get_index(shred)?.checked_sub(fec_set_index)?;
        match Self::get_proof_offset(proof_size, resigned) {
            Err(_) => None,
            Ok(offset) => match get_merkle_root(shred, index as usize, offset, proof_size) {
                Ok(root) => Some(root),
                Err(_) => None,
            },
        }
    }

    /// How many bytes are left for the data, or the proof size if it leaves none.
    pub fn const_capacity(proof_size: u8, resigned: bool) -> (capacity: Result<usize, u8>)
        ensures
            capacity == match capacity_of(ShredType::Data, proof_size, resigned) {
                Ok(capacity) => Ok::<_, u8>(capacity),
                Err(_) => Err(proof_size),
            },
    {
        match Self::capacity(proof_size, resigned) {
            Ok(capacity) => Ok(capacity),
            Err(_) => Err(proof_size),
        }
    }

    /// Whether the shred is the last data shred of its slot.
    pub fn last_in_slot(&self) -> (last: bool)
        ensures
            last == self@.headers->Data_1.flags.has(LAST_SHRED_IN_SLOT),
            last == (self@.headers->Data_1.flags.bits >= 192),
    {
        proof {
            let bits = self.data_header.flags.bits;
            assert(bits & 0b1100_0000 == 0b1100_0000 <==> bits >= 192) by (bit_vector);
        }
        self.data_header.flags.contains(LAST_SHRED_IN_SLOT)
    }

    /// Whether the shred completes a block of entries.
    pub fn data_complete(&self) -> (complete: bool)
        ensures
            complete == self@.headers->Data_1.flags.has(DATA_COMPLETE_SHRED),
            complete == (self@.headers->Data_1.flags.bits % 128 >= 64),
    {
        proof {
            let bits = self.data_header.flags.bits;
            assert(bits & 0b0100_0000 == 0b0100_0000 <==> bits % 128 >= 64) by (bit_vector);
        }
        self.data_header.flags.contains(DATA_COMPLETE_SHRED)
    }

    pub fn reference_tick(&self) -> (tick: u8)
        ensures
            tick == self@.headers->Data_1.flags.bits % 64,
            tick == self@.headers->Data_1.flags.bits & SHRED_TICK_REFERENCE_MASK,
    {
        let bits: u8 = self.data_header.flags.bits();
        assert(bits & 0b0011_1111 == bits % 64) by (bit_vector);
        bits & SHRED_TICK_REFERENCE_MASK
    }
}

/// A data shred as its headers and bytes, or the error in its place.
pub open spec fn data_shred_or_error(shred: Result<ShredData, Error>) -> Result<ShredView, Error> {
    match shred {
        Ok(shred) => Ok(shred@),
        Err(e) => Err(e),
    }
}

} // verus!
