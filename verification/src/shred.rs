//! Shreds of either type.
use crate::{wire, Digest, Pubkey, Signature, Slot, SIZE_OF_SIGNATURE};
use crate::bytes_util::{bytes_eq, splice};
use crate::crypto::{ed25519_verifies, verify_signature};
use crate::error::{Error, ShredHeaders};
use crate::flags::{DATA_COMPLETE_SHRED, LAST_SHRED_IN_SLOT, SHRED_TICK_REFERENCE_MASK};
use crate::header::{CodingShredHeader, DataShredHeader, ShredCommonHeader};
use crate::id::{ErasureSetId, ShredId};
use crate::merkle::{entries_or_error, slice_or_error, write_proof_result, written_proof};
use crate::merkle_tree::{digest_or_error, entries, MerkleProofEntry};
use crate::model::{array_or_error, first_coding_index_of, passed, ShredView};
use crate::payload::{Payload, PayloadMutGuard};
use crate::shred_code::{same_erasure_batch, ShredCode};
use crate::shred_data::ShredData;
use crate::shred_laws::{
    coding_shreds_are_parsed, data_shreds_are_parsed, parsed_shreds_are_in_the_bytes,
    starts_with_coding_shred, starts_with_data_shred,
};
use crate::shred_type::{ShredType, ShredVariant};
use crate::wire::variant_in;
use vstd::prelude::*;

verus! {

/// A data or a coding shred.
#[derive(Debug)]
pub enum Shred {
    ShredCode(ShredCode),
    ShredData(ShredData),
}

impl View for Shred {
    type V = ShredView;

    open spec fn view(&self) -> ShredView {
        match self {
            Shred::ShredCode(shred) => shred@,
            Shred::ShredData(shred) => shred@,
        }
    }
}

impl Clone for Shred {
    fn clone(&self) -> (shred: Shred)
        ensures
            shred@ == self@,
    {
        match self {
            Shred::ShredCode(shred) => Shred::ShredCode(shred.clone()),
            Shred::ShredData(shred) => Shred::ShredData(shred.clone()),
        }
    }
}

impl PartialEq for Shred {
    fn eq(&self, other: &Shred) -> (eq: bool) {
        match (self, other) {
            (Shred::ShredCode(shred), Shred::ShredCode(other)) => *shred == *other,
            (Shred::ShredData(shred), Shred::ShredData(other)) => *shred == *other,
            _ => false,
        }
    }
}

impl Eq for Shred {

}

impl vstd::std_specs::cmp::PartialEqSpecImpl for Shred {
    open spec fn obeys_eq_spec() -> bool {
        true
    }

    open spec fn eq_spec(&self, other: &Shred) -> bool {
        self@ == other@
    }
}

/// A shred as its headers and bytes, or the error in its place.
pub open spec fn shred_or_error(shred: Result<Shred, Error>) -> Result<ShredView, Error> {
    match shred {
        Ok(shred) => Ok(shred@),
        Err(e) => Err(e),
    }
}

/// What reading and checking the shred with the bytes `s` gives.
pub open spec fn shred_in(s: Seq<u8>) -> Result<ShredView, Error> {
    match variant_in(s) {
        Err(e) => Err(e),
        Ok(variant) => match variant.kind() {
            ShredType::Code => ShredCode::read(s),
            ShredType::Data => ShredData::read(s),
        },
    }
}

/// The name of a shred.
pub open spec fn id_of(shred: ShredView) -> ShredId {
    ShredId(shred.common().slot, shred.common().index, shred.common().shred_variant.kind())
}

/// The name of the erasure batch of a shred.
pub open spec fn erasure_set_of(shred: ShredView) -> ErasureSetId {
    ErasureSetId(shred.common().slot, shred.common().fec_set_index)
}

/// Whether a shred has a Merkle root and the signature of it checks out under a key.
pub open spec fn verifies(shred: ShredView, pubkey: Seq<u8>) -> bool {
    shred.merkle_root() matches Ok(root) && ed25519_verifies(
        shred.common().signature@,
        pubkey,
        root,
    )
}

/// Whether two shreds have one name and different payloads.
pub open spec fn duplicates(shred: ShredView, other: ShredView) -> bool {
    id_of(shred) == id_of(other) && shred.payload != other.payload
}

/// Being a duplicate goes both ways, no shred is a duplicate of itself, and duplicates have one name
/// and different payloads.
pub proof fn duplicates_is_symmetric(shred: ShredView, other: ShredView)
    ensures
        duplicates(shred, other) == duplicates(other, shred),
        !duplicates(shred, shred),
        duplicates(shred, other) ==> id_of(shred) == id_of(other) && shred.payload != other.payload,
{
}

/// The payload but for the retransmitter's signature.
pub open spec fn payload_as_sent(shred: ShredView) -> Seq<u8> {
    match shred.retransmitter_signature_offset() {
        Ok(offset) => if offset <= shred.payload.len() {
            shred.payload.take(offset as int)
        } else {
            shred.payload
        },
        Err(_) => shred.payload,
    }
}

/// Whether two shreds have one name and differ in more than the retransmitter's signature.
pub open spec fn conflicts(shred: ShredView, other: ShredView) -> bool {
    id_of(shred) == id_of(other) && payload_as_sent(shred) != payload_as_sent(other)
}

/// A shred that differs only in the retransmitter's signature is in no conflict, and conflicts with
/// the same shreds. Conflicts go both ways.
pub proof fn conflicts_ignores_retransmitter_signature(
    shred: ShredView,
    signature: Seq<u8>,
    other: ShredView,
)
    requires
        shred.retransmitter_signature_offset() is Ok,
    ensures
        ({
            let resigned = ShredView {
                payload: splice(
                    shred.payload,
                    shred.retransmitter_signature_offset()->Ok_0 as int,
                    signature,
                ),
                ..shred
            };
            !conflicts(shred, resigned) && conflicts(resigned, other) == conflicts(shred, other)
        }),
        conflicts(shred, other) == conflicts(other, shred),
{
    let resigned = ShredView {
        payload: splice(
            shred.payload,
            shred.retransmitter_signature_offset()->Ok_0 as int,
            signature,
        ),
        ..shred
    };
    assert(payload_as_sent(resigned) =~= payload_as_sent(shred));
}

/// Shreds with the same headers that conflict are duplicates.
pub proof fn conflicting_shreds_are_duplicates(shred: ShredView, other: ShredView)
    requires
        conflicts(shred, other),
        shred.headers == other.headers,
    ensures
        duplicates(shred, other),
{
}

impl Shred {
    pub fn common_header(&self) -> (header: &ShredCommonHeader)
        ensures
            *header == self@.common(),
    {
        match self {
            Shred::ShredCode(shred) => shred.common_header(),
            Shred::ShredData(shred) => shred.common_header(),
        }
    }

    /// Sets the signature in the header and in the payload.
    pub fn set_signature(&mut self, signature: Signature)
        requires
            old(self)@.payload.len() >= SIZE_OF_SIGNATURE,
        ensures
            final(self)@.common() == (ShredCommonHeader { signature, ..old(self)@.common() }),
            match old(self)@.headers {
                ShredHeaders::Data(_, header) => final(self)@.headers == ShredHeaders::Data(
                    final(self)@.common(),
                    header,
                ),
                ShredHeaders::Code(_, header) => final(self)@.headers == ShredHeaders::Code(
                    final(self)@.common(),
                    header,
                ),
            },
            final(self)@.payload == splice(old(self)@.payload, 0, signature@),
    {
        match self {
            Shred::ShredCode(shred) => shred.set_signature(signature),
            Shred::ShredData(shred) => shred.set_signature(signature),
        }
    }

    /// What the leader signs: the Merkle root of the erasure batch.
    pub fn signed_data(&self) -> (data: Result<Digest, Error>)
        ensures
            digest_or_error(data) == self@.merkle_root(),
    {
        match self {
            Shred::ShredCode(shred) => shred.signed_data(),
            Shred::ShredData(shred) => shred.signed_data(),
        }
    }

    /// The Merkle root of the previous erasure batch.
    pub fn chained_merkle_root(&self) -> (root: Result<Digest, Error>)
        ensures
            array_or_error(root) == self@.chained_merkle_root(),
    {
        match self {
            Shred::ShredCode(shred) => shred.chained_merkle_root(),
            Shred::ShredData(shred) => shred.chained_merkle_root(),
        }
    }

    pub fn retransmitter_signature(&self) -> (signature: Result<Signature, Error>)
        ensures
            array_or_error(signature) == self@.retransmitter_signature(),
    {
        match self {
            Shred::ShredCode(shred) => shred.retransmitter_signature(),
            Shred::ShredData(shred) => shred.retransmitter_signature(),
        }
    }

    pub fn retransmitter_signature_offset(&self) -> (offset: Result<usize, Error>)
        ensures
            offset == self@.retransmitter_signature_offset(),
    {
        match self {
            Shred::ShredCode(shred) => shred.retransmitter_signature_offset(),
            Shred::ShredData(shred) => shred.retransmitter_signature_offset(),
        }
    }

    pub fn into_payload(self) -> (payload: Payload)
        ensures
            payload@ == self@.payload,
    {
        match self {
            Shred::ShredCode(shred) => shred.into_payload(),
            Shred::ShredData(shred) => shred.into_payload(),
        }
    }

    /// The Merkle root of the erasure batch.
    pub fn merkle_root(&self) -> (root: Result<Digest, Error>)
        ensures
            digest_or_error(root) == self@.merkle_root(),
    {
        match self {
            Shred::ShredCode(shred) => shred.merkle_root(),
            Shred::ShredData(shred) => shred.merkle_root(),
        }
    }

    /// The leaf of the shred in the Merkle tree of its batch.
    pub fn merkle_node(&self) -> (node: Result<Digest, Error>)
        ensures
            digest_or_error(node) == self@.merkle_node(),
    {
        match self {
            Shred::ShredCode(shred) => shred.merkle_node(),
            Shred::ShredData(shred) => shred.merkle_node(),
        }
    }

    pub fn merkle_proof(&self) -> (branch: Result<Vec<MerkleProofEntry>, Error>)
        ensures
            entries_or_error(branch) == self@.merkle_proof(),
    {
        match self {
            Shred::ShredCode(shred) => shred.merkle_proof(),
            Shred::ShredData(shred) => shred.merkle_proof(),
        }
    }

    pub fn payload(&self) -> (payload: &Payload)
        ensures
            payload@ == self@.payload,
    {
        match self {
            Shred::ShredCode(shred) => shred.payload(),
            Shred::ShredData(shred) => shred.payload(),
        }
    }

    /// Checks that the shred makes sense.
    pub fn sanitize(&self) -> (checked: Result<(), Error>)
        ensures
            checked == self@.sanitize(),
    {
        match self {
            Shred::ShredCode(shred) => shred.sanitize(),
            Shred::ShredData(shred) => shred.sanitize(),
        }
    }

    /// The position of the shred in its erasure batch.
    pub fn erasure_shard_index(&self) -> (index: Result<usize, Error>)
        ensures
            index == self@.erasure_shard_index(),
    {
        match self {
            Shred::ShredCode(shred) => shred.erasure_shard_index(),
            Shred::ShredData(shred) => shred.erasure_shard_index(),
        }
    }

    /// The erasure coded part.
    pub fn erasure_shard(&self) -> (shard: Result<&[u8], Error>)
        ensures
            slice_or_error(shard) == self@.erasure_shard(),
    {
        match self {
            Shred::ShredCode(shred) => shred.erasure_shard(),
            Shred::ShredData(shred) => shred.erasure_shard(),
        }
    }

    /// The erasure coded part, to be written.
    pub fn erasure_shard_mut<'a>(&'a mut self) -> (shard: Result<PayloadMutGuard<'a>, Error>)
        ensures
            match shard {
                Ok(guard) => {
                    &&& old(self)@.erasure_shard_offsets() == Ok::<_, Error>(
                        (guard.slice_index.start, guard.slice_index.end),
                    )
                    &&& guard.contents() == old(self)@.payload
                    &&& final(self)@.headers == old(self)@.headers
                    &&& final(self)@.payload == final(guard.payload)@
                },
                Err(e) => old(self)@.erasure_shard_offsets() == Err::<(usize, usize), _>(e)
                    && final(self)@ == old(self)@,
            },
    {
        match self {
            Shred::ShredCode(shred) => shred.erasure_shard_mut(),
            Shred::ShredData(shred) => shred.erasure_shard_mut(),
        }
    }

    pub fn set_chained_merkle_root(&mut self, chained_merkle_root: &Digest) -> (done: Result<(), Error>)
        ensures
            done == passed(old(self)@.chained_merkle_root()),
            final(self)@ == if done is Ok {
                ShredView {
                    payload: splice(
                        old(self)@.payload,
                        old(self)@.chained_merkle_root_offset()->Ok_0 as int,
                        chained_merkle_root@,
                    ),
                    ..old(self)@
                }
            } else {
                old(self)@
            },
    {
        match self {
            Shred::ShredCode(shred) => shred.set_chained_merkle_root(chained_merkle_root),
            Shred::ShredData(shred) => shred.set_chained_merkle_root(chained_merkle_root),
        }
    }

    pub fn set_retransmitter_signature(&mut self, signature: &Signature) -> (done: Result<(), Error>)
        ensures
            done == passed(old(self)@.retransmitter_signature()),
            final(self)@ == if done is Ok {
                ShredView {
                    payload: splice(
                        old(self)@.payload,
                        old(self)@.retransmitter_signature_offset()->Ok_0 as int,
                        signature@,
                    ),
                    ..old(self)@
                }
            } else {
                old(self)@
            },
    {
        match self {
            Shred::ShredCode(shred) => shred.set_retransmitter_signature(signature),
            Shred::ShredData(shred) => shred.set_retransmitter_signature(signature),
        }
    }

    /// Writes a proof to the payload. If it has too many or too few entries, the error comes after
    /// as many as fit were written.
    pub fn set_merkle_proof(&mut self, branch: &[MerkleProofEntry]) -> (done: Result<(), Error>)
        requires
            old(self)@.proof_offset() matches Ok(offset) ==> offset <= old(self)@.payload.len(),
        ensures
            match (old(self)@.params(), old(self)@.proof_offset()) {
                (Ok((proof_size, _)), Ok(offset)) => {
                    let room = (old(self)@.payload.len() - offset) as nat;
                    &&& done == write_proof_result(entries(branch@), proof_size, room)
                    &&& final(self)@ == (ShredView {
                        payload: splice(
                            old(self)@.payload,
                            offset as int,
                            written_proof(entries(branch@), proof_size, room),
                        ),
                        ..old(self)@
                    })
                },
                _ => {
                    &&& done == passed(old(self)@.proof_offset())
                    &&& final(self)@ == old(self)@
                },
            },
    {
        match self {
            Shred::ShredCode(shred) => shred.set_merkle_proof(branch),
            Shred::ShredData(shred) => shred.set_merkle_proof(branch),
        }
    }

    /// Reads a shred and checks it.
    pub fn new_from_serialized_shred(shred: Payload) -> (parsed: Result<Shred, Error>)
        ensures
            shred_or_error(parsed) == shred_in(shred@),
            parsed matches Ok(parsed) ==> match parsed {
                Shred::ShredData(data) => data@.headers matches ShredHeaders::Data(
                    header,
                    data_header,
                ) && starts_with_data_shred(shred@, header, data_header) && data@.payload
                    == shred@.take(1203),
                Shred::ShredCode(code) => code@.headers matches ShredHeaders::Code(
                    header,
                    coding_header,
                ) && starts_with_coding_shred(shred@, header, coding_header) && code@.payload
                    == shred@.take(1228),
            },
            forall|header: ShredCommonHeader, data_header: DataShredHeader| #[trigger]
                starts_with_data_shred(shred@, header, data_header) ==> parsed is Ok,
            forall|header: ShredCommonHeader, coding_header: CodingShredHeader| #[trigger]
                starts_with_coding_shred(shred@, header, coding_header) ==> parsed is Ok,
    {
        proof {
            parsed_shreds_are_in_the_bytes(shred@);
            assert forall|header: ShredCommonHeader, data_header: DataShredHeader| #[trigger]
                starts_with_data_shred(shred@, header, data_header) implies shred_in(shred@) is Ok by {
                data_shreds_are_parsed(shred@, header, data_header);
            }
            assert forall|header: ShredCommonHeader, coding_header: CodingShredHeader| #[trigger]
                starts_with_coding_shred(shred@, header, coding_header) implies shred_in(shred@)
                is Ok by {
                coding_shreds_are_parsed(shred@, header, coding_header);
            }
        }
        match wire::get_shred_variant(shred.as_slice()) {
            Err(e) => Err(e),
            Ok(ShredVariant::MerkleCode { .. }) => match ShredCode::from_payload(shred) {
                Ok(shred) => Ok(Shred::ShredCode(shred)),
                Err(e) => Err(e),
            },
            Ok(ShredVariant::MerkleData { .. }) => match ShredData::from_payload(shred) {
                Ok(shred) => Ok(Shred::ShredData(shred)),
                Err(e) => Err(e),
            },
        }
    }

    /// Unique name of the shred.
    pub fn id(&self) -> (id: ShredId)
        ensures
            id == id_of(self@),
    {
        ShredId(self.slot(), self.index(), self.shred_type())
    }

    pub fn slot(&self) -> (slot: Slot)
        ensures
            slot == self@.common().slot,
    {
        self.common_header().slot
    }

    /// The slot of the parent block, which only data shreds tell.
    pub fn parent(&self) -> (parent: Result<Slot, Error>)
        ensures
            parent == self@.parent(),
    {
        match self {
            Shred::ShredCode(_) => Err(Error::InvalidShredType),
            Shred::ShredData(shred) => shred.parent(),
        }
    }

    pub fn index(&self) -> (index: u32)
        ensures
            index == self@.common().index,
    {
        self.common_header().index
    }

    pub fn fec_set_index(&self) -> (fec_set_index: u32)
        ensures
            fec_set_index == self@.common().fec_set_index,
    {
        self.common_header().fec_set_index
    }

    /// The index of the first coding shred of the batch, which only coding shreds tell.
    pub fn first_coding_index(&self) -> (index: Option<u32>)
        ensures
            index == match self@.headers {
                ShredHeaders::Code(common_header, coding_header) => first_coding_index_of(
                    common_header,
                    coding_header,
                ),
                ShredHeaders::Data(..) => None,
            },
    {
        match self {
            Shred::ShredCode(shred) => shred.first_coding_index(),
            Shred::ShredData(_) => None,
        }
    }

    pub fn version(&self) -> (version: u16)
        ensures
            version == self@.common().version,
    {
        self.common_header().version
    }

    /// Name of the erasure batch that the shred belongs to.
    pub fn erasure_set(&self) -> (id: ErasureSetId)
        ensures
            id == erasure_set_of(self@),
    {
        ErasureSetId(self.slot(), self.fec_set_index())
    }

    pub fn signature(&self) -> (signature: &Signature)
        ensures
            *signature == self@.common().signature,
    {
        &self.common_header().signature
    }

    pub fn shred_type(&self) -> (shred_type: ShredType)
        ensures
            shred_type == self@.common().shred_variant.kind(),
    {
        ShredType::from(self.common_header().shred_variant)
    }

    pub fn is_data(&self) -> (is: bool)
        ensures
            is == (self@.common().shred_variant.kind() == ShredType::Data),
    {
        self.shred_type() == ShredType::Data
    }

    pub fn is_code(&self) -> (is: bool)
        ensures
            is == (self@.common().shred_variant.kind() == ShredType::Code),
    {
        self.shred_type() == ShredType::Code
    }

    /// Whether the shred is the last data shred of its slot.
    pub fn last_in_slot(&self) -> (last: bool)
        ensures
            last == match self@.headers {
                ShredHeaders::Code(..) => false,
                ShredHeaders::Data(_, data_header) => data_header.flags.has(LAST_SHRED_IN_SLOT),
            },
    {
        match self {
            Shred::ShredCode(_) => false,
            Shred::ShredData(shred) => shred.last_in_slot(),
        }
    }

    /// Whether the shred completes a block of entries.
    pub fn data_complete(&self) -> (complete: bool)
        ensures
            complete == match self@.headers {
                ShredHeaders::Code(..) => false,
                ShredHeaders::Data(_, data_header) => data_header.flags.has(DATA_COMPLETE_SHRED),
            },
    {
        match self {
            Shred::ShredCode(_) => false,
            Shred::ShredData(shred) => shred.data_complete(),
        }
    }

    /// The reference tick; for coding shreds, which have none, the largest one.
    pub fn reference_tick(&self) -> (tick: u8)
        ensures
            tick == match self@.headers {
                ShredHeaders::Code(..) => SHRED_TICK_REFERENCE_MASK,
                ShredHeaders::Data(_, data_header) => data_header.flags.bits
                    & SHRED_TICK_REFERENCE_MASK,
            },
    {
        match self {
            Shred::ShredCode(_) => SHRED_TICK_REFERENCE_MASK,
            Shred::ShredData(shred) => shred.reference_tick(),
        }
    }

    /// Whether the shred has a Merkle root and the signature of it checks out under the key.
    pub fn verify(&self, pubkey: &Pubkey) -> (ok: bool)
        ensures
            ok == verifies(self@, pubkey@),
            match (self@.headers, self@.merkle_root()) {
                (ShredHeaders::Data(header, _), Ok(root)) => ok == ed25519_verifies(
                    header.signature@,
                    pubkey@,
                    root,
                ),
                (ShredHeaders::Code(header, _), Ok(root)) => ok == ed25519_verifies(
                    header.signature@,
                    pubkey@,
                    root,
                ),
                (_, Err(_)) => !ok,
            },
    {
        match self.signed_data() {
            Ok(data) => verify_signature(self.signature(), pubkey, data.as_slice()),
            Err(_) => false,
        }
    }

    /// Whether two coding shreds cannot be of one erasure batch.
    pub fn erasure_mismatch(&self, other: &Shred) -> (mismatch: Result<bool, Error>)
        ensures
            mismatch == match (self@.headers, other@.headers) {
                (ShredHeaders::Code(..), ShredHeaders::Code(..)) => Ok::<_, Error>(
                    !same_erasure_batch(self@, other@),
                ),
                _ => Err(Error::InvalidShredType),
            },
            mismatch matches Ok(mismatch) && !mismatch ==> {
                let header = self@.headers->Code_1;
                let other_header = other@.headers->Code_1;
                &&& header.num_data_shreds == other_header.num_data_shreds
                &&& header.num_coding_shreds == other_header.num_coding_shreds
                &&& self@.headers->Code_0.signature == other@.headers->Code_0.signature
            },
    {
        match (self, other) {
            (Shred::ShredCode(shred), Shred::ShredCode(other)) => Ok(shred.erasure_mismatch(other)),
            _ => Err(Error::InvalidShredType),
        }
    }

    /// The number of data shreds of the batch, which only coding shreds tell.
    pub fn num_data_shreds(&self) -> (num: Result<u16, Error>)
        ensures
            num == match self@.headers {
                ShredHeaders::Code(_, coding_header) => Ok::<_, Error>(
                    coding_header.num_data_shreds,
                ),
                ShredHeaders::Data(..) => Err(Error::InvalidShredType),
            },
    {
        match self {
            Shred::ShredCode(shred) => Ok(shred.num_data_shreds()),
            Shred::ShredData(_) => Err(Error::InvalidShredType),
        }
    }

    /// The number of coding shreds of the batch, which only coding shreds tell.
    pub fn num_coding_shreds(&self) -> (num: Result<u16, Error>)
        ensures
            num == match self@.headers {
                ShredHeaders::Code(_, coding_header) => Ok::<_, Error>(
                    coding_header.num_coding_shreds,
                ),
                ShredHeaders::Data(..) => Err(Error::InvalidShredType),
            },
    {
        match self {
            Shred::ShredCode(shred) => Ok(shred.num_coding_shreds()),
            Shred::ShredData(_) => Err(Error::InvalidShredType),
        }
    }

    /// The payload but for the retransmitter's signature.
    fn get_payload_as_sent(&self) -> (bytes: &[u8])
        ensures
            bytes@ == payload_as_sent(self@),
    {
        let payload = self.payload().as_slice();
        match self.retransmitter_signature_offset() {
            Err(_) => payload,
            Ok(offset) => if offset <= payload.len() {
                &payload[0..offset]
            } else {
                payload
            },
        }
    }

    /// Whether the other shred has the same name but a different payload.
    pub fn is_shred_duplicate(&self, other: &Shred) -> (is: bool)
        ensures
            is == (id_of(self@) == id_of(other@) && self@.payload != other@.payload),
            is == duplicates(self@, other@),
    {
        if self.id() != other.id() {
            return false;
        }
        !bytes_eq(self.payload().as_slice(), other.payload().as_slice())
    }

    /// Whether the other shred has the same name but differs in more than the retransmitter's
    /// signature, so that both cannot have been sent by one honest leader.
    pub fn conflicts_with(&self, other: &Shred) -> (is: bool)
        ensures
            is == conflicts(self@, other@),
    {
        if self.id() != other.id() {
            return false;
        }
        !bytes_eq(self.get_payload_as_sent(), other.get_payload_as_sent())
    }
}

} // verus!
