//! Coding shreds.
use crate::{
    geometry, Digest, Signature, DATA_SHREDS_PER_FEC_BLOCK, MAX_CODE_SHREDS_PER_SLOT,
    MAX_DATA_SHREDS_PER_SLOT, SIZE_OF_SIGNATURE,
};
use crate::bytes_util::{bytes_eq, read_u16, splice};
use crate::error::{Error, ShredHeaders};
use crate::geometry::{capacity_of, chained_offset_of, proof_offset_of, retransmitter_offset_of};
use crate::header::{
    coding_headers_of, deserialize_coding_headers, CodingShredHeader, ShredCommonHeader,
};
use crate::merkle::{
    entries_or_error, get_merkle_node, get_merkle_proof, get_merkle_root, get_part, set_part,
    set_proof, slice_or_error, write_proof_result, written_proof,
};
use crate::merkle_tree::{digest_or_error, entries, MerkleProofEntry};
use crate::model::{array_or_error, code_shard_index, first_coding_index_of, passed, ShredView};
use crate::payload::{Payload, PayloadMutGuard};
use crate::shred_type::{ShredType, ShredVariant};
use crate::wire::{array_or_none, merkle_root_in};
use std::ops::Range;
use vstd::prelude::*;

verus! {

/// A coding shred.
#[derive(Debug)]
pub struct ShredCode {
    pub(crate) common_header: ShredCommonHeader,
    pub(crate) coding_header: CodingShredHeader,
    pub(crate) payload: Payload,
}

impl View for ShredCode {
    type V = ShredView;

    open(crate) spec fn view(&self) -> ShredView {
        ShredView {
            headers: ShredHeaders::Code(self.common_header, self.coding_header),
            payload: self.payload@,
        }
    }
}

impl Clone for ShredCode {
    fn clone(&self) -> (shred: ShredCode)
        ensures
            shred@ == self@,
    {
        ShredCode {
            common_header: self.common_header,
            coding_header: self.coding_header,
            payload: self.payload.clone(),
        }
    }
}

impl PartialEq for ShredCode {
    fn eq(&self, other: &ShredCode) -> (eq: bool) {
        self.common_header == other.common_header && self.coding_header == other.coding_header
            && self.payload == other.payload
    }
}

impl Eq for ShredCode {

}

impl vstd::std_specs::cmp::PartialEqSpecImpl for ShredCode {
    open spec fn obeys_eq_spec() -> bool {
        true
    }

    open spec fn eq_spec(&self, other: &ShredCode) -> bool {
        self@ == other@
    }
}

impl ShredCode {
    pub const SIZE_OF_PAYLOAD: usize = 1228;

    pub const SIZE_OF_HEADERS: usize = 89;

    /// Where the erasure coded part of the payload starts.
    pub const ERASURE_SHARD_START_OFFSET: usize = 89;

    /// How many bytes are left for the shard.
    pub fn capacity(proof_size: u8, resigned: bool) -> (capacity: Result<usize, Error>)
        ensures
            capacity == capacity_of(ShredType::Code, proof_size, resigned),
    {
        geometry::capacity(ShredType::Code, proof_size, resigned)
    }

    pub fn get_proof_offset(proof_size: u8, resigned: bool) -> (offset: Result<usize, Error>)
        ensures
            offset == proof_offset_of(ShredType::Code, proof_size, resigned),
    {
        geometry::get_proof_offset(ShredType::Code, proof_size, resigned)
    }

    pub fn get_chained_merkle_root_offset(proof_size: u8, resigned: bool) -> (offset: Result<
        usize,
        Error,
    >)
        ensures
            offset == chained_offset_of(ShredType::Code, proof_size, resigned),
    {
        geometry::get_chained_merkle_root_offset(ShredType::Code, proof_size, resigned)
    }

    pub fn get_retransmitter_signature_offset(proof_size: u8, resigned: bool) -> (offset: Result<
        usize,
        Error,
    >)
        ensures
            offset == retransmitter_offset_of(ShredType::Code, proof_size, resigned),
    {
        geometry::get_retransmitter_signature_offset(ShredType::Code, proof_size, resigned)
    }

    /// The common header.
    pub fn common_header(&self) -> (header: &ShredCommonHeader)
        ensures
            *header == self@.common(),
    {
        &self.common_header
    }

    pub fn payload(&self) -> (payload: &Payload)
        ensures
            payload@ == self@.payload,
    {
        &self.payload
    }

    pub fn into_payload(self) -> (payload: Payload)
        ensures
            payload@ == self@.payload,
    {
        self.payload
    }

    /// Sets the signature in the header and in the payload.
    pub fn set_signature(&mut self, signature: Signature)
        requires
            old(self)@.payload.len() >= SIZE_OF_SIGNATURE,
        ensures
            final(self)@ == (ShredView {
                headers: ShredHeaders::Code(
                    ShredCommonHeader { signature, ..old(self)@.common() },
                    old(self)@.headers->Code_1,
                ),
                payload: splice(old(self)@.payload, 0, signature@),
            }),
    {
        let _ = set_part(&mut self.payload, 0, signature.as_slice());
        self.common_header.signature = signature;
    }

    pub fn proof_size(&self) -> (proof_size: Result<u8, Error>)
        ensures
            proof_size == match self@.params() {
                Ok((proof_size, _)) => Ok(proof_size),
                Err(e) => Err(e),
            },
    {
        match self.common_header.shred_variant {
            ShredVariant::MerkleCode { proof_size, .. } => Ok(proof_size),
            _ => Err(Error::InvalidShredVariant),
        }
    }

    pub fn proof_offset(&self) -> (offset: Result<usize, Error>)
        ensures
            offset == self@.proof_offset(),
    {
        let ShredVariant::MerkleCode { proof_size, resigned } = self.common_header.shred_variant else {
            return Err(Error::InvalidShredVariant);
        };
        Self::get_proof_offset(proof_size, resigned)
    }

    pub fn chained_merkle_root_offset(&self) -> (offset: Result<usize, Error>)
        ensures
            offset == self@.chained_merkle_root_offset(),
    {
        let ShredVariant::MerkleCode { proof_size, resigned } = self.common_header.shred_variant else {
            return Err(Error::InvalidShredVariant);
        };
        Self::get_chained_merkle_root_offset(proof_size, resigned)
    }

    pub fn retransmitter_signature_offset(&self) -> (offset: Result<usize, Error>)
        ensures
            offset == self@.retransmitter_signature_offset(),
    {
        let ShredVariant::MerkleCode { proof_size, resigned } = self.common_header.shred_variant else {
            return Err(Error::InvalidShredVariant);
        };
        Self::get_retransmitter_signature_offset(proof_size, resigned)
    }

    /// The Merkle root of the previous erasure batch.
    pub fn chained_merkle_root(&self) -> (root: Result<Digest, Error>)
        ensures
            array_or_error(root) == self@.chained_merkle_root(),
    {
        match self.chained_merkle_root_offset() {
            Ok(offset) => get_part::<32>(self.payload.as_slice(), offset),
            Err(e) => Err(e),
        }
    }

    pub fn set_chained_merkle_root(&mut self, chained_merkle_root: &Digest) -> (done: Result<
        (),
        Error,
    >)
        ensures
            done == passed(old(self)@.chained_merkle_root()),
            final(self)@ == if done is Ok {
                ShredView {
                    payload: splice(
                        old(self)@.payload,
                        old(self)@.chained_merkle_root_offset()->Ok_0 as int,
                        chained_merkle_root@,
                    ),
                    ..old(self)@
                }
            } else {
                old(self)@
            },
    {
        match self.chained_merkle_root_offset() {
            Ok(offset) => set_part(&mut self.payload, offset, chained_merkle_root.as_slice()),
            Err(e) => Err(e),
        }
    }

    pub fn retransmitter_signature(&self) -> (signature: Result<Signature, Error>)
        ensures
            array_or_error(signature) == self@.retransmitter_signature(),
    {
        match self.retransmitter_signature_offset() {
            Ok(offset) => get_part::<64>(self.payload.as_slice(), offset),
            Err(e) => Err(e),
        }
    }

    pub fn set_retransmitter_signature(&mut self, signature: &Signature) -> (done: Result<
        (),
        Error,
    >)
        ensures
            done == passed(old(self)@.retransmitter_signature()),
            final(self)@ == if done is Ok {
                ShredView {
                    payload: splice(
                        old(self)@.payload,
                        old(self)@.retransmitter_signature_offset()->Ok_0 as int,
                        signature@,
                    ),
                    ..old(self)@
                }
            } else {
                old(self)@
            },
    {
        match self.retransmitter_signature_offset() {
            Ok(offset) => set_part(&mut self.payload, offset, signature.as_slice()),
            Err(e) => Err(e),
        }
    }

    /// The Merkle root of the erasure batch.
    pub fn merkle_root(&self) -> (root: Result<Digest, Error>)
        ensures
            digest_or_error(root) == self@.merkle_root(),
    {
        let proof_size: u8 = match self.proof_size() {
            Ok(proof_size) => proof_size,
            Err(e) => return Err(e),
        };
        let index: usize = match self.erasure_shard_index() {
            Ok(index) => index,
            Err(e) => return Err(e),
        };
        match self.proof_offset() {
            Ok(offset) => get_merkle_root(self.payload.as_slice(), index, offset, proof_size),
            Err(e) => Err(e),
        }
    }

    pub fn merkle_proof(&self) -> (branch: Result<Vec<MerkleProofEntry>, Error>)
        ensures
            entries_or_error(branch) == self@.merkle_proof(),
    {
        let proof_size: u8 = match self.proof_size() {
            Ok(proof_size) => proof_size,
            Err(e) => return Err(e),
        };
        match self.proof_offset() {
            Ok(offset) => get_merkle_proof(self.payload.as_slice(), offset, proof_size),
            Err(e) => Err(e),
        }
    }

    /// The leaf of the shred in the Merkle tree of its batch.
    pub fn merkle_node(&self) -> (node: Result<Digest, Error>)
        ensures
            digest_or_error(node) == self@.merkle_node(),
    {
        match self.proof_offset() {
            Ok(offset) => get_merkle_node(self.payload.as_slice(), SIZE_OF_SIGNATURE, offset),
            Err(e) => Err(e),
        }
    }

    /// Writes a proof to the payload. If it has too many or too few entries, the error comes after
    /// as many as fit were written.
    pub fn set_merkle_proof(&mut self, branch: &[MerkleProofEntry]) -> (done: Result<(), Error>)
        requires
            old(self)@.proof_offset() matches Ok(offset) ==> offset <= old(self)@.payload.len(),
        ensures
            match (old(self)@.params(), old(self)@.proof_offset()) {
                (Ok((proof_size, _)), Ok(offset)) => {
                    let room = (old(self)@.payload.len() - offset) as nat;
                    &&& done == write_proof_result(entries(branch@), proof_size, room)
                    &&& final(self)@ == (ShredView {
                        payload: splice(
                            old(self)@.payload,
                            offset as int,
                            written_proof(entries(branch@), proof_size, room),
                        ),
                        ..old(self)@
                    })
                },
                _ => {
                    &&& done == passed(old(self)@.proof_offset())
                    &&& final(self)@ == old(self)@
                },
            },
    {
        let proof_size: u8 = match self.proof_size() {
            Ok(proof_size) => proof_size,
            Err(e) => return Err(e),
        };
        match self.proof_offset() {
            Ok(offset) => set_proof(&mut self.payload, offset, proof_size, branch),
            Err(e) => Err(e),
        }
    }

    /// Where the erasure coded part starts and ends.
    pub fn erasure_shard_offsets(&self) -> (offsets: Result<Range<usize>, Error>)
        ensures
            match offsets {
                Ok(offsets) => self@.erasure_shard_offsets() == Ok::<_, Error>(
                    (offsets.start, offsets.end),
                ),
                Err(e) => self@.erasure_shard_offsets() == Err::<(usize, usize), _>(e),
            },
    {
        let len: usize = self.payload.as_slice().len();
        if len != Self::SIZE_OF_PAYLOAD {
            return Err(Error::InvalidPayloadSize(len));
        }
        match self.chained_merkle_root_offset() {
            Ok(offset) => Ok(Self::ERASURE_SHARD_START_OFFSET..offset),
            Err(e) => Err(e),
        }
    }

    /// The erasure coded part.
    pub fn erasure_shard(&self) -> (shard: Result<&[u8], Error>)
        ensures
            slice_or_error(shard) == self@.erasure_shard(),
    {
        match self.erasure_shard_offsets() {
            Ok(offsets) => Ok(&self.payload.as_slice()[offsets.start..offsets.end]),
            Err(e) => Err(e),
        }
    }

    /// The erasure coded part, to be written.
    pub fn erasure_shard_mut<'a>(&'a mut self) -> (shard: Result<PayloadMutGuard<'a>, Error>)
        ensures
            match shard {
                Ok(guard) => {
                    &&& old(self)@.erasure_shard_offsets() == Ok::<_, Error>(
                        (guard.slice_index.start, guard.slice_index.end),
                    )
                    &&& guard.contents() == old(self)@.payload
                    &&& final(self)@.headers == old(self)@.headers
                    &&& final(self)@.payload == final(guard.payload)@
                },
                Err(e) => old(self)@.erasure_shard_offsets() == Err::<(usize, usize), _>(e)
                    && final(self)@ == old(self)@,
            },
    {
        let len: usize = self.payload.as_slice().len();
        match self.erasure_shard_offsets() {
            Err(e) => Err(e),
            Ok(offsets) => match self.payload.get_mut(offsets) {
                Some(guard) => Ok(guard),
                None => Err(Error::InvalidPayloadSize(len)),
            },
        }
    }

    /// What the leader signs.
    pub fn signed_data(&self) -> (data: Result<Digest, Error>)
        ensures
            digest_or_error(data) == self@.merkle_root(),
    {
        self.merkle_root()
    }

    /// The coding shred that a payload holds, whether or not it makes sense.
    pub open spec fn parsed(payload: Seq<u8>) -> Result<ShredView, Error> {
        match coding_headers_of(payload) {
            Err(e) => Err(Error::WincodeRead(e)),
            Ok((common_header, coding_header)) => if payload.len() < Self::SIZE_OF_PAYLOAD {
                Err(Error::InvalidPayloadSize(payload.len() as usize))
            } else {
                Ok(
                    ShredView {
                        headers: ShredHeaders::Code(common_header, coding_header),
                        payload: payload.take(Self::SIZE_OF_PAYLOAD as int),
                    },
                )
            },
        }
    }

    /// Reads the headers of a coding shred and checks nothing of what they say.
    pub fn from_payload_unchecked(payload: Payload) -> (shred: Result<ShredCode, Error>)
        ensures
            code_shred_or_error(shred) == Self::parsed(payload@),
    {
        let mut payload = payload;
        let (common_header, coding_header) = match deserialize_coding_headers(payload.as_slice()) {
            Ok(headers) => headers,
            Err(e) => return Err(Error::WincodeRead(e)),
        };
        let len: usize = payload.as_slice().len();
        if len < Self::SIZE_OF_PAYLOAD {
            return Err(Error::InvalidPayloadSize(len));
        }
        let ghost whole = payload@;
        payload.truncate(Self::SIZE_OF_PAYLOAD);
        assert(payload@ =~= whole.take(Self::SIZE_OF_PAYLOAD as int));
        Ok(ShredCode { common_header, coding_header, payload })
    }

    /// The coding shred that a payload holds, if it makes sense.
    pub open spec fn read(payload: Seq<u8>) -> Result<ShredView, Error> {
        match (coding_headers_of(payload), Self::parsed(payload)) {
            (Err(e), _) => Err(Error::WincodeRead(e)),
            (Ok((common_header, _)), parsed) => if common_header.shred_variant.kind()
                != ShredType::Code {
                Err(Error::InvalidShredVariant)
            } else {
                match parsed {
                    Ok(parsed) => match parsed.sanitize() {
                        Ok(_) => Ok(parsed),
                        Err(e) => Err(e),
                    },
                    Err(e) => Err(e),
                }
            },
        }
    }

    /// Reads a coding shred and checks it.
    pub fn from_payload(payload: Payload) -> (shred: Result<ShredCode, Error>)
        ensures
            code_shred_or_error(shred) == Self::read(payload@),
    {
        let mut payload = payload;
        let (common_header, coding_header) = match deserialize_coding_headers(payload.as_slice()) {
            Ok(headers) => headers,
            Err(e) => return Err(Error::WincodeRead(e)),
        };
        if !matches!(common_header.shred_variant, ShredVariant::MerkleCode { .. }) {
            return Err(Error::InvalidShredVariant);
        }
        let len: usize = payload.as_slice().len();
        if len < Self::SIZE_OF_PAYLOAD {
            return Err(Error::InvalidPayloadSize(len));
        }
        let ghost whole = payload@;
        payload.truncate(Self::SIZE_OF_PAYLOAD);
        assert(payload@ =~= whole.take(Self::SIZE_OF_PAYLOAD as int));
        let shred = ShredCode { common_header, coding_header, payload };
        match shred.sanitize() {
            Ok(_) => Ok(shred),
            Err(e) => Err(e),
        }
    }

    /// The position of the shred in its erasure batch.
    pub fn erasure_shard_index(&self) -> (index: Result<usize, Error>)
        ensures
            index == self@.erasure_shard_index(),
    {
        match self.checked_shard_index() {
            Some(index) => Ok(index),
            None => Err(
                Error::InvalidErasureShardIndex(
                    Box::new(ShredHeaders::Code(self.common_header, self.coding_header)),
                ),
            ),
        }
    }

    /// The position of the shred in its erasure batch, if the last data and the last coding shred of
    /// the batch have an index below the maximum.
    fn checked_shard_index(&self) -> (index: Option<usize>)
        ensures
            index == code_shard_index(self.common_header, self.coding_header),
    {
        let num_data: u16 = self.coding_header.num_data_shreds;
        let num_coding: u16 = self.coding_header.num_coding_shreds;
        let after_first_data: u32 = num_data.checked_sub(1)? as u32;
        let last_data: u32 = self.common_header.fec_set_index.checked_add(after_first_data)?;
        if last_data as usize >= MAX_DATA_SHREDS_PER_SLOT {
            return None;
        }
        let first_coding: u32 = self.first_coding_index()?;
        let after_first_coding: u32 = num_coding.checked_sub(1)? as u32;
        let last_coding: u32 = first_coding.checked_add(after_first_coding)?;
        if last_coding as usize >= MAX_CODE_SHREDS_PER_SLOT {
            return None;
        }
        let fec_set_size: usize = num_data as usize + num_coding as usize;
        let index: usize = self.coding_header.position as usize + num_data as usize;
        if index < fec_set_size {
            Some(index)
        } else {
            None
        }
    }

    /// Checks that the shred makes sense.
    pub fn sanitize(&self) -> (checked: Result<(), Error>)
        ensures
            checked == self@.sanitize(),
    {
        if !matches!(self.common_header.shred_variant, ShredVariant::MerkleCode { .. }) {
            return Err(Error::InvalidShredVariant);
        }
        match self.merkle_proof() {
            Ok(_) => {},
            Err(e) => return Err(e),
        }
        let len: usize = self.payload.as_slice().len();
        if len != Self::SIZE_OF_PAYLOAD {
            return Err(Error::InvalidPayloadSize(len));
        }
        if self.common_header.index as usize >= MAX_CODE_SHREDS_PER_SLOT {
            return Err(Error::InvalidShredIndex(ShredType::Code, self.common_header.index));
        }
        let num_coding_shreds: u16 = self.coding_header.num_coding_shreds;
        if num_coding_shreds as usize > 8 * DATA_SHREDS_PER_FEC_BLOCK {
            return Err(Error::InvalidNumCodingShreds(num_coding_shreds));
        }
        match self.erasure_shard_index() {
            Ok(_) => {},
            Err(e) => return Err(e),
        }
        match self.erasure_shard() {
            Ok(_) => Ok(()),
            Err(e) => Err(e),
        }
    }

    /// The Merkle root of the batch of a coding shred with the given bytes.
    pub fn get_merkle_root(shred: &[u8], proof_size: u8, resigned: bool) -> (root: Option<Digest>)
        ensures
            array_or_none(root) == merkle_root_in(
                shred@,
                ShredType::Code,
                proof_size,
                resigned,
            ),
    {
        if shred.len() < 89 {
            return None;
        }
        let num_data_shreds: usize = read_u16(shred, 83) as usize;
        let position: usize = read_u16(shred, 87) as usize;
        match Self::get_proof_offset(proof_size, resigned) {
            Err(_) => None,
            Ok(offset) => match get_merkle_root(
                shred,
                num_data_shreds + position,
                offset,
                proof_size,
            ) {
                Ok(root) => Some(root),
                Err(_) => None,
            },
        }
    }

    pub fn coding_header(&self) -> (header: &CodingShredHeader)
        ensures
            *header == self@.headers->Code_1,
    {
        &self.coding_header
    }

    /// The index of the first coding shred of the batch.
    pub fn first_coding_index(&self) -> (index: Option<u32>)
        ensures
            index == first_coding_index_of(self@.common(), self@.headers->Code_1),
    {
        self.common_header.index.checked_sub(self.coding_header.position as u32)
    }

    pub fn num_data_shreds(&self) -> (num: u16)
        ensures
            num == self@.headers->Code_1.num_data_shreds,
    {
        self.coding_header.num_data_shreds
    }

    pub fn num_coding_shreds(&self) -> (num: u16)
        ensures
            num == self@.headers->Code_1.num_coding_shreds,
    {
        self.coding_header.num_coding_shreds
    }

    /// Whether the two shreds cannot be of one erasure batch.
    pub fn erasure_mismatch(&self, other: &ShredCode) -> (mismatch: bool)
        ensures
            mismatch == !same_erasure_batch(self@, other@),
    {
        let same = self.coding_header.num_coding_shreds == other.coding_header.num_coding_shreds
            && self.coding_header.num_data_shreds == other.coding_header.num_data_shreds
            && same_index(self.first_coding_index(), other.first_coding_index()) && bytes_eq(
            &self.common_header.signature,
            &other.common_header.signature,
        );
        proof {
            if same {
                assert(self.common_header.signature =~= other.common_header.signature);
            }
        }
        !same
    }
}

/// Whether two optional indices are the same.
fn same_index(index: Option<u32>, other: Option<u32>) -> (same: bool)
    ensures
        same == (index == other),
{
    match (index, other) {
        (Some(index), Some(other)) => index == other,
        (None, None) => true,
        _ => false,
    }
}

/// Whether two coding shreds agree on the size and the start of their batch and on the signature.
pub open spec fn same_erasure_batch(shred: ShredView, other: ShredView) -> bool {
    let header = shred.headers->Code_1;
    let other_header = other.headers->Code_1;
    &&& header.num_coding_shreds == other_header.num_coding_shreds
    &&& header.num_data_shreds == other_header.num_data_shreds
    &&& first_coding_index_of(shred.common(), header) == first_coding_index_of(
        other.common(),
        other_header,
    )
    &&& shred.common().signature == other.common().signature
}

/// Agreeing on the batch is an equivalence.
pub proof fn same_erasure_batch_is_an_equivalence(a: ShredView, b: ShredView, c: ShredView)
    ensures
        same_erasure_batch(a, a),
        same_erasure_batch(a, b) == same_erasure_batch(b, a),
        same_erasure_batch(a, b) && same_erasure_batch(b, c) ==> same_erasure_batch(a, c),
{
}

/// A coding shred as its headers and bytes, or the error in its place.
pub open spec fn code_shred_or_error(shred: Result<ShredCode, Error>) -> Result<ShredView, Error> {
    match shred {
        Ok(shred) => Ok(shred@),
        Err(e) => Err(e),
    }
}

} // verus!
