//! What a shred tells, by the fields of its headers and the bytes of its payload, and which bytes are a
//! shred.
use crate::{Pubkey, Slot};
use crate::bytes_util::{le_u16, le_u32, le_u64, splice};
use crate::crypto::{ed25519_verifies, sha256};
use crate::error::{Error, ReadError, ShredHeaders};
use crate::format_laws::{
    coding_headers_are_read, data_headers_are_read, is_variant_byte, layout_of_coding_shreds,
    layout_of_data_shreds, leaf_prefix, leaves_and_nodes_are_hashes, starts_with, tail_size,
    variant_bytes,
};
use crate::header::{CodingShredHeader, DataShredHeader, ShredCommonHeader};
use crate::id::{ErasureSetId, ShredId};
use crate::merkle::{entries_or_error, flat, slice_or_error, write_proof_result, written_proof};
use crate::merkle_tree::{digest_or_error, root_of_proof, MerkleProofEntry};
use crate::model::{array_or_error, first_coding_index_of, passed, ShredView};
use crate::payload::Payload;
use crate::recover::{results, views};
use crate::shred::{
    conflicts, duplicates, erasure_set_of, id_of, shred_in, shred_or_error, verifies, Shred,
};
use crate::shred_code::{code_shred_or_error, same_erasure_batch, ShredCode};
use crate::shred_data::{data_shred_or_error, ShredData};
use crate::shred_type::{ShredType, ShredVariant};
use crate::wire::{
    array_or_none, erasure_config_in, fec_set_index_in, flags_in, id_in, index_in, merkle_root_in,
    retransmitter_offset_in, retransmitter_signature_in, shard_index_in, slot_in, type_in,
    variant_in, version_in,
};
use vstd::prelude::*;
use vstd::std_specs::cmp::PartialEqSpec;
use vstd::std_specs::convert::{FromSpec, TryFromSpec};

verus! {

/// A shred is of the type of its headers.
pub proof fn headers_tell_the_type(shred: ShredView)
    ensures
        match shred.headers {
            ShredHeaders::Data(header, _) => shred.kind() == ShredType::Data && shred.common() == header,
            ShredHeaders::Code(header, _) => shred.kind() == ShredType::Code && shred.common() == header,
        },
{
}

/// A data shred of a slot other than zero names any slot before its own as its parent, by how many
/// slots that is back; one of slot zero names slot zero.
pub proof fn parents_lie_back(shred: ShredView)
    ensures
        match shred.headers {
            ShredHeaders::Data(header, data_header) => {
                let slot = header.slot;
                let offset = data_header.parent_offset;
                &&& 1 <= offset <= slot ==> shred.parent() == Ok::<_, Error>((slot - offset) as u64)
                &&& slot == 0 && offset == 0 ==> shred.parent() == Ok::<_, Error>(0u64)
                &&& offset > slot || (offset == 0 && slot > 0) ==> shred.parent() == Err::<Slot, _>(
                    Error::InvalidParentOffset { slot, parent_offset: offset },
                )
            },
            ShredHeaders::Code(..) => shred.parent() == Err::<Slot, _>(Error::InvalidShredType),
        },
{
}

/// The position of a data shred in its batch is how far its index is from that of the batch.
pub proof fn position_of_data_shreds(
    shred: ShredView,
    header: ShredCommonHeader,
    data_header: DataShredHeader,
)
    requires
        shred.headers == ShredHeaders::Data(header, data_header),
    ensures
        header.index >= header.fec_set_index ==> shred.erasure_shard_index() == Ok::<_, Error>(
            (header.index - header.fec_set_index) as usize,
        ),
        header.index < header.fec_set_index ==> shred.erasure_shard_index() == Err::<usize, _>(
            Error::InvalidErasureShardIndex(Box::new(shred.headers)),
        ),
{
}

/// Whether a coding shred can be one of its batch: the batch has data and coding shreds, all with
/// indices below 32768, and the shred is one of the latter.
pub open spec fn code_position_exists(
    header: ShredCommonHeader,
    coding_header: CodingShredHeader,
) -> bool {
    &&& coding_header.num_data_shreds >= 1
    &&& coding_header.position < coding_header.num_coding_shreds
    &&& header.fec_set_index + coding_header.num_data_shreds <= 32_768
    &&& coding_header.position <= header.index
    &&& header.index - coding_header.position + coding_header.num_coding_shreds <= 32_768
}

/// The position of a coding shred in its batch is behind all data shreds.
pub proof fn position_of_coding_shreds(
    shred: ShredView,
    header: ShredCommonHeader,
    coding_header: CodingShredHeader,
)
    requires
        shred.headers == ShredHeaders::Code(header, coding_header),
    ensures
        code_position_exists(header, coding_header) ==> shred.erasure_shard_index() == Ok::<_, Error>(
            (coding_header.num_data_shreds + coding_header.position) as usize,
        ),
        !code_position_exists(header, coding_header) ==> shred.erasure_shard_index() == Err::<
            usize,
            _,
        >(Error::InvalidErasureShardIndex(Box::new(shred.headers))),
        header.index >= coding_header.position ==> first_coding_index_of(header, coding_header)
            == Some((header.index - coding_header.position) as u32),
        header.index < coding_header.position ==> first_coding_index_of(header, coding_header) is None,
{
}

/// Whether `branch` is the proof of `proof_size` entries at the given place of `s`.
pub open spec fn is_proof_at(s: Seq<u8>, at: int, proof_size: u8, branch: Seq<Seq<u8>>) -> bool {
    &&& branch.len() == proof_size
    &&& forall|i: int|
        0 <= i < proof_size ==> #[trigger] branch[i] == s.subrange(at + 20 * i, at + 20 * i + 20)
}

/// What the parts of a data shred are.
pub proof fn parts_of_data_shreds(
    shred: ShredView,
    header: ShredCommonHeader,
    data_header: DataShredHeader,
    proof_size: u8,
    resigned: bool,
)
    requires
        shred.headers == ShredHeaders::Data(header, data_header),
        header.shred_variant == (ShredVariant::MerkleData { proof_size, resigned }),
        shred.payload.len() == 1203,
        tail_size(proof_size, resigned) <= 1203 - 88,
    ensures
        ({
            let s = shred.payload;
            let end = 1203 - tail_size(proof_size, resigned);
            let leaf = sha256(leaf_prefix() + s.subrange(64, end + 32));
            let size = data_header.size as int;
            &&& shred.params() == Ok::<_, Error>((proof_size, resigned))
            &&& shred.proof_offset() == Ok::<_, Error>((end + 32) as usize)
            &&& shred.chained_merkle_root_offset() == Ok::<_, Error>(end as usize)
            &&& shred.erasure_shard_offsets() == Ok::<_, Error>((64usize, end as usize))
            &&& shred.chained_merkle_root() == Ok::<_, Error>(s.subrange(end, end + 32))
            &&& shred.erasure_shard() == Ok::<_, Error>(s.subrange(64, end))
            &&& shred.merkle_node() == Ok::<_, Error>(leaf)
            &&& shred.merkle_proof() matches Ok(branch) && {
                &&& is_proof_at(s, end + 32, proof_size, branch)
                &&& header.fec_set_index <= header.index ==> shred.merkle_root() == root_of_proof(
                    (header.index - header.fec_set_index) as nat,
                    leaf,
                    branch,
                )
            }
            &&& header.fec_set_index > header.index ==> shred.merkle_root() is Err
            &&& 88 <= size <= end ==> shred.data() == Ok::<_, Error>(s.subrange(88, size))
            &&& !(88 <= size <= end) ==> shred.data() == Err::<Seq<u8>, _>(
                Error::InvalidDataSize { size: data_header.size, payload: 1203 },
            )
            &&& resigned ==> shred.retransmitter_signature() == Ok::<_, Error>(
                s.subrange(1203 - 64, 1203),
            ) && shred.retransmitter_signature_offset() == Ok::<_, Error>(1139usize)
            &&& !resigned ==> shred.retransmitter_signature() == Err::<Seq<u8>, _>(
                Error::InvalidShredVariant,
            )
        }),
{
    let s = shred.payload;
    let end = 1203 - tail_size(proof_size, resigned);
    layout_of_data_shreds(proof_size, resigned);
    leaves_and_nodes_are_hashes(s, end + 32, s, s);
    let branch = shred.merkle_proof()->Ok_0;
    assert forall|i: int| 0 <= i < proof_size implies #[trigger] branch[i] == s.subrange(
        end + 32 + 20 * i,
        end + 32 + 20 * i + 20,
    ) by {
        assert(branch[i] =~= s.subrange(end + 32 + 20 * i, end + 32 + 20 * i + 20));
    }
}

/// What the parts of a coding shred are.
pub proof fn parts_of_coding_shreds(
    shred: ShredView,
    header: ShredCommonHeader,
    coding_header: CodingShredHeader,
    proof_size: u8,
    resigned: bool,
)
    requires
        shred.headers == ShredHeaders::Code(header, coding_header),
        header.shred_variant == (ShredVariant::MerkleCode { proof_size, resigned }),
        shred.payload.len() == 1228,
        tail_size(proof_size, resigned) <= 1228 - 89,
    ensures
        ({
            let s = shred.payload;
            let end = 1228 - tail_size(proof_size, resigned);
            let leaf = sha256(leaf_prefix() + s.subrange(64, end + 32));
            &&& shred.params() == Ok::<_, Error>((proof_size, resigned))
            &&& shred.proof_offset() == Ok::<_, Error>((end + 32) as usize)
            &&& shred.chained_merkle_root_offset() == Ok::<_, Error>(end as usize)
            &&& shred.erasure_shard_offsets() == Ok::<_, Error>((89usize, end as usize))
            &&& shred.chained_merkle_root() == Ok::<_, Error>(s.subrange(end, end + 32))
            &&& shred.erasure_shard() == Ok::<_, Error>(s.subrange(89, end))
            &&& shred.merkle_node() == Ok::<_, Error>(leaf)
            &&& shred.merkle_proof() matches Ok(branch) && {
                &&& is_proof_at(s, end + 32, proof_size, branch)
                &&& code_position_exists(header, coding_header) ==> shred.merkle_root()
                    == root_of_proof(
                    (coding_header.num_data_shreds + coding_header.position) as nat,
                    leaf,
                    branch,
                )
            }
            &&& !code_position_exists(header, coding_header) ==> shred.merkle_root() is Err
            &&& shred.data() == Err::<Seq<u8>, _>(Error::InvalidShredType)
            &&& resigned ==> shred.retransmitter_signature() == Ok::<_, Error>(
                s.subrange(1228 - 64, 1228),
            ) && shred.retransmitter_signature_offset() == Ok::<_, Error>(1164usize)
            &&& !resigned ==> shred.retransmitter_signature() == Err::<Seq<u8>, _>(
                Error::InvalidShredVariant,
            )
        }),
{
    let s = shred.payload;
    let end = 1228 - tail_size(proof_size, resigned);
    layout_of_coding_shreds(proof_size, resigned);
    leaves_and_nodes_are_hashes(s, end + 32, s, s);
    let branch = shred.merkle_proof()->Ok_0;
    assert forall|i: int| 0 <= i < proof_size implies #[trigger] branch[i] == s.subrange(
        end + 32 + 20 * i,
        end + 32 + 20 * i + 20,
    ) by {
        assert(branch[i] =~= s.subrange(end + 32 + 20 * i, end + 32 + 20 * i + 20));
    }
}

/// Whether the headers of a data shred make sense.
pub open spec fn data_headers_make_sense(
    header: ShredCommonHeader,
    data_header: DataShredHeader,
) -> bool {
    &&& header.shred_variant matches ShredVariant::MerkleData { proof_size, resigned }
    &&& 88 <= data_header.size
    &&& data_header.size + tail_size(proof_size, resigned) <= 1203
    &&& header.index < 32_768
    &&& header.fec_set_index <= header.index
    &&& data_header.flags.bits < 128 || data_header.flags.bits >= 192
    &&& 1 <= data_header.parent_offset <= header.slot || (header.slot == 0
        && data_header.parent_offset == 0)
}

/// Whether the headers of a coding shred make sense.
pub open spec fn coding_headers_make_sense(
    header: ShredCommonHeader,
    coding_header: CodingShredHeader,
) -> bool {
    &&& header.shred_variant matches ShredVariant::MerkleCode { proof_size, resigned }
    &&& tail_size(proof_size, resigned) <= 1228 - 89
    &&& header.index < 32_768
    &&& coding_header.num_coding_shreds <= 256
    &&& code_position_exists(header, coding_header)
}

/// A data shred makes sense if and only if it has 1203 bytes and its headers make sense.
pub proof fn which_data_shreds_make_sense(
    shred: ShredView,
    header: ShredCommonHeader,
    data_header: DataShredHeader,
)
    requires
        shred.headers == ShredHeaders::Data(header, data_header),
    ensures
        shred.sanitize() is Ok <==> shred.payload.len() == 1203 && data_headers_make_sense(
            header,
            data_header,
        ),
{
    let bits = data_header.flags.bits;
    assert((bits & 0b1100_0000 != 0 && bits & 0b0100_0000 != 0b0100_0000) <==> 128 <= bits < 192)
        by (bit_vector);
}

/// A coding shred makes sense if and only if it has 1228 bytes and its headers make sense.
pub proof fn which_coding_shreds_make_sense(
    shred: ShredView,
    header: ShredCommonHeader,
    coding_header: CodingShredHeader,
)
    requires
        shred.headers == ShredHeaders::Code(header, coding_header),
    ensures
        shred.sanitize() is Ok <==> shred.payload.len() == 1228 && coding_headers_make_sense(
            header,
            coding_header,
        ),
{
}

/// What is wrong with a data shred of the right size: the first thing that is.
pub proof fn what_is_wrong_with_data_shreds(
    shred: ShredView,
    header: ShredCommonHeader,
    data_header: DataShredHeader,
    proof_size: u8,
    resigned: bool,
)
    requires
        shred.headers == ShredHeaders::Data(header, data_header),
        header.shred_variant == (ShredVariant::MerkleData { proof_size, resigned }),
        shred.payload.len() == 1203,
        tail_size(proof_size, resigned) <= 1203 - 88,
    ensures
        match shred.sanitize() {
            Ok(_) => true,
            Err(Error::InvalidShredIndex(kind, index)) => kind == ShredType::Data && index
                == header.index && index >= 32_768,
            Err(Error::InvalidShredFlags(bits)) => header.index < 32_768 && bits
                == data_header.flags.bits && 128 <= bits < 192,
            Err(Error::InvalidDataSize { size, payload }) => {
                &&& header.index < 32_768 && !(128 <= data_header.flags.bits < 192)
                &&& size == data_header.size && payload == 1203
                &&& size < 88 || size + tail_size(proof_size, resigned) > 1203
            },
            Err(Error::InvalidParentOffset { slot, parent_offset }) => {
                &&& header.index < 32_768 && !(128 <= data_header.flags.bits < 192)
                &&& 88 <= data_header.size
                &&& data_header.size + tail_size(proof_size, resigned) <= 1203
                &&& slot == header.slot && parent_offset == data_header.parent_offset
                &&& parent_offset > slot || (parent_offset == 0 && slot > 0)
            },
            Err(Error::InvalidErasureShardIndex(headers)) => {
                &&& header.index < header.fec_set_index && *headers == shred.headers
                &&& header.index < 32_768 && !(128 <= data_header.flags.bits < 192)
                &&& 88 <= data_header.size
                &&& data_header.size + tail_size(proof_size, resigned) <= 1203
                &&& 1 <= data_header.parent_offset <= header.slot || (header.slot == 0
                    && data_header.parent_offset == 0)
            },
            Err(_) => false,
        },
{
    let bits = data_header.flags.bits;
    assert((bits & 0b1100_0000 != 0 && bits & 0b0100_0000 != 0b0100_0000) <==> 128 <= bits < 192)
        by (bit_vector);
    layout_of_data_shreds(proof_size, resigned);
}

/// What is wrong with a coding shred of the right size: the first thing that is.
pub proof fn what_is_wrong_with_coding_shreds(
    shred: ShredView,
    header: ShredCommonHeader,
    coding_header: CodingShredHeader,
    proof_size: u8,
    resigned: bool,
)
    requires
        shred.headers == ShredHeaders::Code(header, coding_header),
        header.shred_variant == (ShredVariant::MerkleCode { proof_size, resigned }),
        shred.payload.len() == 1228,
        tail_size(proof_size, resigned) <= 1228 - 89,
    ensures
        match shred.sanitize() {
            Ok(_) => true,
            Err(Error::InvalidShredIndex(kind, index)) => kind == ShredType::Code && index
                == header.index && index >= 32_768,
            Err(Error::InvalidNumCodingShreds(num)) => header.index < 32_768 && num
                == coding_header.num_coding_shreds && num > 256,
            Err(Error::InvalidErasureShardIndex(headers)) => {
                &&& header.index < 32_768 && coding_header.num_coding_shreds <= 256
                &&& !code_position_exists(header, coding_header) && *headers == shred.headers
            },
            Err(_) => false,
        },
{
    layout_of_coding_shreds(proof_size, resigned);
}

/// Whether `s` starts with a data shred that makes sense.
pub open spec fn starts_with_data_shred(
    s: Seq<u8>,
    header: ShredCommonHeader,
    data_header: DataShredHeader,
) -> bool {
    &&& s.len() >= 1203
    &&& starts_with(s, header)
    &&& data_header.parent_offset == le_u16(s, 83)
    &&& data_header.flags.bits == s[85]
    &&& data_header.size == le_u16(s, 86)
    &&& data_headers_make_sense(header, data_header)
}

/// Whether `s` starts with a coding shred that makes sense.
pub open spec fn starts_with_coding_shred(
    s: Seq<u8>,
    header: ShredCommonHeader,
    coding_header: CodingShredHeader,
) -> bool {
    &&& s.len() >= 1228
    &&& starts_with(s, header)
    &&& coding_header.num_data_shreds == le_u16(s, 83)
    &&& coding_header.num_coding_shreds == le_u16(s, 85)
    &&& coding_header.position == le_u16(s, 87)
    &&& coding_headers_make_sense(header, coding_header)
}

/// The common header of bytes is the only one.
pub(crate) proof fn lemma_one_header(s: Seq<u8>, header: ShredCommonHeader, other: ShredCommonHeader)
    requires
        starts_with(s, header),
        starts_with(s, other),
    ensures
        header == other,
{
    assert(header.signature@ == other.signature@);
    assert(header.signature =~= other.signature);
}

/// Parsing is sound: what is read is what the bytes hold, and makes sense.
pub proof fn parsed_shreds_are_in_the_bytes(s: Seq<u8>)
    ensures
        shred_in(s) matches Ok(shred) ==> match shred.headers {
            ShredHeaders::Data(header, data_header) => {
                &&& starts_with_data_shred(s, header, data_header)
                &&& shred.payload == s.take(1203)
            },
            ShredHeaders::Code(header, coding_header) => {
                &&& starts_with_coding_shred(s, header, coding_header)
                &&& shred.payload == s.take(1228)
            },
        },
{
    if let Ok(shred) = shred_in(s) {
        variant_bytes(s[64]);
        match shred.headers {
            ShredHeaders::Data(header, data_header) => {
                let t = s.take(1203);
                assert(t.take(64) =~= s.take(64));
                data_headers_are_read(t);
                which_data_shreds_make_sense(shred, header, data_header);
            },
            ShredHeaders::Code(header, coding_header) => {
                coding_headers_are_read(s);
                which_coding_shreds_make_sense(shred, header, coding_header);
            },
        }
    }
}

/// Parsing is complete for data shreds: bytes that start with one that makes sense are read as it.
pub proof fn data_shreds_are_parsed(
    s: Seq<u8>,
    header: ShredCommonHeader,
    data_header: DataShredHeader,
)
    requires
        starts_with_data_shred(s, header, data_header),
    ensures
        shred_in(s) == Ok::<_, Error>(
            ShredView { headers: ShredHeaders::Data(header, data_header), payload: s.take(1203) },
        ),
        ShredData::read(s) == shred_in(s),
{
    let t = s.take(1203);
    let shred = ShredView { headers: ShredHeaders::Data(header, data_header), payload: t };
    assert(t.take(64) =~= s.take(64));
    variant_bytes(s[64]);
    data_headers_are_read(t);
    let (found, found_data) = crate::header::data_headers_of(t)->Ok_0;
    lemma_one_header(t, header, found);
    assert(found_data.flags == data_header.flags);
    assert(found_data == data_header);
    which_data_shreds_make_sense(shred, header, data_header);
}

/// Parsing is complete for coding shreds: bytes that start with one that makes sense are read as it.
pub proof fn coding_shreds_are_parsed(
    s: Seq<u8>,
    header: ShredCommonHeader,
    coding_header: CodingShredHeader,
)
    requires
        starts_with_coding_shred(s, header, coding_header),
    ensures
        shred_in(s) == Ok::<_, Error>(
            ShredView { headers: ShredHeaders::Code(header, coding_header), payload: s.take(1228) },
        ),
        ShredCode::read(s) == shred_in(s),
{
    let shred = ShredView {
        headers: ShredHeaders::Code(header, coding_header),
        payload: s.take(1228),
    };
    variant_bytes(s[64]);
    coding_headers_are_read(s);
    let (found, found_coding) = crate::header::coding_headers_of(s)->Ok_0;
    lemma_one_header(s, header, found);
    assert(found_coding == coding_header);
    which_coding_shreds_make_sense(shred, header, coding_header);
}

/// Why bytes are no shred at all: there are too few, or the variant byte is none.
pub proof fn bytes_that_are_no_shred(s: Seq<u8>)
    requires
        s.len() <= usize::MAX,
    ensures
        s.len() <= 64 ==> shred_in(s) == Err::<ShredView, _>(
            Error::InvalidPayloadSize(s.len() as usize),
        ),
        s.len() > 64 && !is_variant_byte(s[64]) ==> shred_in(s) == Err::<ShredView, _>(
            Error::InvalidShredVariant,
        ),
        64 < s.len() < 1203 && is_variant_byte(s[64]) && s[64] >= 0x90 ==> shred_in(s) == Err::<
            ShredView,
            _,
        >(Error::InvalidPayloadSize(s.len() as usize)),
        89 <= s.len() < 1228 && is_variant_byte(s[64]) && s[64] < 0x90 ==> shred_in(s) == Err::<
            ShredView,
            _,
        >(Error::InvalidPayloadSize(s.len() as usize)),
        64 < s.len() < 89 && is_variant_byte(s[64]) && s[64] < 0x90 ==> shred_in(s) == Err::<
            ShredView,
            _,
        >(Error::WincodeRead(ReadError::ReadSizeLimit(89))),
{
    if s.len() > 64 {
        variant_bytes(s[64]);
        coding_headers_are_read(s);
    }
}

/// Bytes that are long enough and have a variant byte are read with their headers, and the only thing
/// that can go wrong is what is wrong with those.
pub proof fn bytes_are_read_before_they_are_checked(s: Seq<u8>)
    requires
        s.len() > 64,
        is_variant_byte(s[64]),
        s.len() >= if s[64] >= 0x90 {
            1203int
        } else {
            1228
        },
    ensures
        s[64] >= 0x90 ==> (ShredData::parsed(s) matches Ok(shred) && {
            &&& shred.headers matches ShredHeaders::Data(header, data_header)
            &&& starts_with(s, header)
            &&& data_header.parent_offset == le_u16(s, 83)
            &&& data_header.flags.bits == s[85]
            &&& data_header.size == le_u16(s, 86)
            &&& shred.payload == s.take(1203)
            &&& shred_in(s) == match shred.sanitize() {
                Ok(_) => Ok(shred),
                Err(e) => Err(e),
            }
        }),
        s[64] < 0x90 ==> (ShredCode::parsed(s) matches Ok(shred) && {
            &&& shred.headers matches ShredHeaders::Code(header, coding_header)
            &&& starts_with(s, header)
            &&& coding_header.num_data_shreds == le_u16(s, 83)
            &&& coding_header.num_coding_shreds == le_u16(s, 85)
            &&& coding_header.position == le_u16(s, 87)
            &&& shred.payload == s.take(1228)
            &&& shred_in(s) == match shred.sanitize() {
                Ok(_) => Ok(shred),
                Err(e) => Err(e),
            }
        }),
{
    variant_bytes(s[64]);
    if s[64] >= 0x90 {
        let t = s.take(1203);
        assert(t.take(64) =~= s.take(64));
        data_headers_are_read(t);
    } else {
        coding_headers_are_read(s);
    }
}

/// A shred and its batch are named by what its headers tell.
pub proof fn names_of_shreds(shred: ShredView)
    ensures
        match shred.headers {
            ShredHeaders::Data(header, _) => {
                &&& header.shred_variant is MerkleData ==> id_of(shred) == ShredId(
                    header.slot,
                    header.index,
                    ShredType::Data,
                )
                &&& erasure_set_of(shred) == ErasureSetId(header.slot, header.fec_set_index)
            },
            ShredHeaders::Code(header, _) => {
                &&& header.shred_variant is MerkleCode ==> id_of(shred) == ShredId(
                    header.slot,
                    header.index,
                    ShredType::Code,
                )
                &&& erasure_set_of(shred) == ErasureSetId(header.slot, header.fec_set_index)
            },
        },
{
}

/// A shred checks out under a key if and only if it has a root and the signature in its header is one
/// of that root under the key, whatever else the shred holds.
pub proof fn signatures_are_of_roots(shred: ShredView, pubkey: Pubkey)
    ensures
        match shred.headers {
            ShredHeaders::Data(header, _) => verifies(shred, pubkey@) <==> exists|root: Seq<u8>|
                shred.merkle_root() == Ok::<_, Error>(root) && #[trigger] ed25519_verifies(
                    header.signature@,
                    pubkey@,
                    root,
                ),
            ShredHeaders::Code(header, _) => verifies(shred, pubkey@) <==> exists|root: Seq<u8>|
                shred.merkle_root() == Ok::<_, Error>(root) && #[trigger] ed25519_verifies(
                    header.signature@,
                    pubkey@,
                    root,
                ),
        },
{
}

/// Shreds of one name are duplicates as soon as one byte differs, and are in conflict as soon as one
/// byte in front of the retransmitter's signature does.
pub proof fn one_byte_makes_a_duplicate(shred: ShredView, other: ShredView, k: int)
    requires
        id_of(shred) == id_of(other),
        shred.payload.len() == other.payload.len(),
        0 <= k < shred.payload.len(),
        shred.payload[k] != other.payload[k],
    ensures
        duplicates(shred, other),
        shred.sanitize() is Ok && other.sanitize() is Ok && k < shred.payload.len() - 64 ==> conflicts(
            shred,
            other,
        ),
        shred.retransmitter_signature_offset() is Err && other.retransmitter_signature_offset()
            is Err ==> conflicts(shred, other),
{
    let a = crate::shred::payload_as_sent(shred);
    let b = crate::shred::payload_as_sent(other);
    if a == b {
        assert(k < a.len() ==> a[k] == b[k]);
    }
}

/// Shreds of different names, and shreds with the same bytes, are neither.
pub proof fn others_are_no_duplicates(shred: ShredView, other: ShredView)
    requires
        shred.common().slot != other.common().slot || shred.common().index != other.common().index
            || shred.common().shred_variant is MerkleData
            != other.common().shred_variant is MerkleData || shred == other,
    ensures
        !duplicates(shred, other),
        !conflicts(shred, other),
{
}

/// Coding shreds of one batch agree on the numbers of shreds, on the index of the first coding shred
/// and on the signature; one that does not is of another.
pub proof fn coding_shreds_of_one_batch(
    shred: ShredView,
    other: ShredView,
    header: ShredCommonHeader,
    coding_header: CodingShredHeader,
    other_header: ShredCommonHeader,
    other_coding_header: CodingShredHeader,
)
    requires
        shred.headers == ShredHeaders::Code(header, coding_header),
        other.headers == ShredHeaders::Code(other_header, other_coding_header),
        coding_header.position <= header.index,
        other_coding_header.position <= other_header.index,
    ensures
        same_erasure_batch(shred, other) <==> {
            &&& coding_header.num_data_shreds == other_coding_header.num_data_shreds
            &&& coding_header.num_coding_shreds == other_coding_header.num_coding_shreds
            &&& header.index - coding_header.position == other_header.index
                - other_coding_header.position
            &&& header.signature@ == other_header.signature@
        },
{
    if header.signature@ == other_header.signature@ {
        assert(header.signature =~= other_header.signature);
    }
}

/// A coding shred is always of the batch of a shred with the same headers.
pub proof fn coding_shreds_with_one_header(shred: ShredView, other: ShredView)
    requires
        shred.headers is Code,
        shred.headers == other.headers,
    ensures
        same_erasure_batch(shred, other),
{
}

/// What is read off bytes without parsing them all lies in fixed places.
pub proof fn pieces_lie_in_fixed_places(s: Seq<u8>)
    requires
        s.len() <= usize::MAX,
    ensures
        slot_in(s) == if s.len() >= 73 {
            Some(le_u64(s, 65))
        } else {
            None
        },
        index_in(s) == if s.len() >= 77 {
            Some(le_u32(s, 73))
        } else {
            None
        },
        version_in(s) == if s.len() >= 79 {
            Some(le_u16(s, 77))
        } else {
            None
        },
        fec_set_index_in(s) == if s.len() >= 83 {
            Some(le_u32(s, 79))
        } else {
            None
        },
        s.len() <= 64 ==> variant_in(s) == Err::<ShredVariant, _>(
            Error::InvalidPayloadSize(s.len() as usize),
        ) && type_in(s) == Err::<ShredType, _>(Error::InvalidPayloadSize(s.len() as usize)),
        s.len() > 64 && !is_variant_byte(s[64]) ==> variant_in(s) == Err::<ShredVariant, _>(
            Error::InvalidShredVariant,
        ) && type_in(s) == Err::<ShredType, _>(Error::InvalidShredVariant),
        s.len() > 64 && is_variant_byte(s[64]) && s[64] >= 0x90 ==> {
            &&& type_in(s) == Ok::<_, Error>(ShredType::Data)
            &&& variant_in(s) == Ok::<_, Error>(
                ShredVariant::MerkleData { proof_size: s[64] % 16, resigned: s[64] >= 0xb0 },
            )
            &&& s.len() > 85 ==> (flags_in(s) matches Ok(flags) && flags.bits == s[85])
            &&& s.len() <= 85 ==> flags_in(s) is Err
            &&& erasure_config_in(s) is Err
            &&& s.len() >= 83 && le_u32(s, 73) >= le_u32(s, 79) ==> shard_index_in(
                s,
                ShredType::Data,
            ) == Some((le_u32(s, 73) - le_u32(s, 79)) as nat)
        },
        s.len() > 64 && is_variant_byte(s[64]) && s[64] < 0x90 ==> {
            &&& type_in(s) == Ok::<_, Error>(ShredType::Code)
            &&& variant_in(s) == Ok::<_, Error>(
                ShredVariant::MerkleCode { proof_size: s[64] % 16, resigned: s[64] >= 0x70 },
            )
            &&& flags_in(s) is Err
            &&& s.len() >= 87 ==> (erasure_config_in(s) matches Ok(config) && config.num_data
                == le_u16(s, 83) && config.num_coding == le_u16(s, 85))
            &&& s.len() < 87 ==> erasure_config_in(s) is Err
            &&& s.len() >= 89 ==> shard_index_in(s, ShredType::Code) == Some(
                (le_u16(s, 83) + le_u16(s, 87)) as nat,
            )
        },
        id_in(s) == if s.len() >= 77 && is_variant_byte(s[64]) {
            Some(
                ShredId(
                    le_u64(s, 65),
                    le_u32(s, 73),
                    if s[64] >= 0x90 {
                        ShredType::Data
                    } else {
                        ShredType::Code
                    },
                ),
            )
        } else {
            None
        },
{
    if s.len() > 64 {
        variant_bytes(s[64]);
    }
}

/// The retransmitter's signature and the Merkle root are read off whole shreds, also if bytes follow
/// them, in the same places as of parsed ones.
pub proof fn whole_shreds_have_their_last_parts(
    s: Seq<u8>,
    proof_size: u8,
    resigned: bool,
    size: int,
    end: int,
    branch: Seq<Seq<u8>>,
)
    requires
        s.len() > 64,
        is_variant_byte(s[64]),
        size == if s[64] >= 0x90 {
            1203int
        } else {
            1228
        },
        s.len() >= size,
        proof_size == s[64] % 16,
        resigned == (s[64] >= 0xb0 || 0x70 <= s[64] < 0x80),
        end == size - tail_size(proof_size, resigned),
        is_proof_at(s, end + 32, proof_size, branch),
    ensures
        resigned ==> retransmitter_offset_in(s) == Ok::<_, Error>((size - 64) as usize),
        resigned ==> retransmitter_signature_in(s) == Ok::<_, Error>(
            s.subrange(size - 64, size),
        ),
        !resigned ==> retransmitter_signature_in(s) == Err::<Seq<u8>, _>(Error::InvalidShredVariant),
        ({
            let leaf = sha256(leaf_prefix() + s.subrange(64, end + 32));
            &&& s[64] >= 0x90 && le_u32(s, 73) >= le_u32(s, 79) ==> merkle_root_in(
                s,
                ShredType::Data,
                proof_size,
                resigned,
            ) == match root_of_proof((le_u32(s, 73) - le_u32(s, 79)) as nat, leaf, branch) {
                Ok(root) => Some(root),
                Err(_) => None,
            }
            &&& s[64] >= 0x90 && le_u32(s, 73) < le_u32(s, 79) ==> merkle_root_in(
                s,
                ShredType::Data,
                proof_size,
                resigned,
            ) is None
            &&& s[64] < 0x90 ==> merkle_root_in(s, ShredType::Code, proof_size, resigned)
                == match root_of_proof((le_u16(s, 83) + le_u16(s, 87)) as nat, leaf, branch) {
                Ok(root) => Some(root),
                Err(_) => None,
            }
        }),
{
    variant_bytes(s[64]);
    layout_of_data_shreds(proof_size, resigned);
    layout_of_coding_shreds(proof_size, resigned);
    leaves_and_nodes_are_hashes(s, end + 32, s, s);
    let found = crate::model::proof_of(s, end + 32, proof_size)->Ok_0;
    assert forall|i: int| 0 <= i < proof_size implies #[trigger] found[i] == branch[i] by {
        assert(found[i] =~= branch[i]);
    }
    assert(found =~= branch);
}

/// Nothing is told of a shred whose variant is of the other type.
pub proof fn variants_of_the_other_type_tell_nothing(shred: ShredView)
    ensures
        match shred.headers {
            ShredHeaders::Data(header, _) => header.shred_variant is MerkleCode,
            ShredHeaders::Code(header, _) => header.shred_variant is MerkleData,
        } ==> {
            &&& shred.sanitize() == Err::<(), _>(Error::InvalidShredVariant)
            &&& shred.merkle_proof() == Err::<Seq<Seq<u8>>, _>(Error::InvalidShredVariant)
            &&& shred.merkle_node() == Err::<Seq<u8>, _>(Error::InvalidShredVariant)
            &&& shred.merkle_root() == Err::<Seq<u8>, _>(Error::InvalidShredVariant)
            &&& shred.chained_merkle_root() == Err::<Seq<u8>, _>(Error::InvalidShredVariant)
            &&& shred.retransmitter_signature() == Err::<Seq<u8>, _>(Error::InvalidShredVariant)
        },
{
}

/// A proof of as many entries as the variant tells is written whole, and is read back; nothing else of
/// the payload changes. One of another number of entries is an error.
pub proof fn proofs_are_read_back(s: Seq<u8>, at: int, proof_size: u8, branch: Seq<Seq<u8>>)
    requires
        0 <= at,
        at + 20 * proof_size <= s.len(),
        forall|i: int| 0 <= i < branch.len() ==> (#[trigger] branch[i]).len() == 20,
    ensures
        ({
            let room = (s.len() - at) as nat;
            let written = written_proof(branch, proof_size, room);
            let t = splice(s, at, written);
            if branch.len() == proof_size {
                &&& write_proof_result(branch, proof_size, room) == Ok::<_, Error>(())
                &&& t.len() == s.len()
                &&& is_proof_at(t, at, proof_size, branch)
                &&& forall|k: int|
                    0 <= k < s.len() && !(at <= k < at + 20 * proof_size) ==> #[trigger] t[k] == s[k]
            } else {
                write_proof_result(branch, proof_size, room) == Err::<(), _>(Error::InvalidMerkleProof)
            }
        }),
{
    if branch.len() == proof_size {
        let room = (s.len() - at) as nat;
        let stream = flat(branch);
        let t = splice(s, at, written_proof(branch, proof_size, room));
        assert(written_proof(branch, proof_size, room) == stream);
        assert forall|i: int| 0 <= i < proof_size implies #[trigger] branch[i] == t.subrange(
            at + 20 * i,
            at + 20 * i + 20,
        ) by {
            assert forall|j: int| 0 <= j < 20 implies branch[i][j] == t[at + 20 * i + j] by {
                assert((20 * i + j) / 20 == i && (20 * i + j) % 20 == j);
                assert(stream[20 * i + j] == branch[i][j]);
            }
            assert(branch[i] =~= t.subrange(at + 20 * i, at + 20 * i + 20));
        }
    }
}

/// A result stands for what it holds, and an error for itself.
pub proof fn results_stand_for_what_they_hold(
    array: [u8; 32],
    signature: [u8; 64],
    slice: &[u8],
    branch: Vec<MerkleProofEntry>,
    shred: Shred,
    data: ShredData,
    code: ShredCode,
    e: Error,
)
    ensures
        array_or_error(Ok::<[u8; 32], Error>(array)) == Ok::<_, Error>(array@),
        array_or_error(Err::<[u8; 32], Error>(e)) == Err::<Seq<u8>, _>(e),
        array_or_error(Ok::<[u8; 64], Error>(signature)) == Ok::<_, Error>(signature@),
        array_or_error(Err::<[u8; 64], Error>(e)) == Err::<Seq<u8>, _>(e),
        array_or_none(Some(array)) == Some(array@),
        array_or_none(Some(signature)) == Some(signature@),
        array_or_none::<32>(None) is None,
        array_or_none::<64>(None) is None,
        digest_or_error(Ok(array)) == Ok::<_, Error>(array@),
        digest_or_error(Err(e)) == Err::<Seq<u8>, _>(e),
        slice_or_error(Ok(slice)) == Ok::<_, Error>(slice@),
        slice_or_error(Err(e)) == Err::<Seq<u8>, _>(e),
        entries_or_error(Err(e)) == Err::<Seq<Seq<u8>>, _>(e),
        entries_or_error(Ok(branch)) matches Ok(all) && all.len() == branch@.len() && forall|i: int|
            0 <= i < all.len() ==> #[trigger] all[i] == branch@[i]@,
        shred_or_error(Ok(shred)) == Ok::<_, Error>(shred@),
        shred_or_error(Err(e)) == Err::<ShredView, _>(e),
        data_shred_or_error(Ok(data)) == Ok::<_, Error>(data@),
        data_shred_or_error(Err(e)) == Err::<ShredView, _>(e),
        code_shred_or_error(Ok(code)) == Ok::<_, Error>(code@),
        code_shred_or_error(Err(e)) == Err::<ShredView, _>(e),
        passed(Ok::<Seq<u8>, _>(slice@)) == Ok::<_, Error>(()),
        passed(Err::<Seq<u8>, _>(e)) == Err::<(), _>(e),
{
}

/// A shred is to the contracts what its fields hold.
pub(crate) proof fn shreds_are_their_headers_and_bytes(shred: Shred)
    ensures
        match shred {
            Shred::ShredData(data) => {
                &&& shred@.headers == ShredHeaders::Data(data.common_header, data.data_header)
                &&& shred@.payload == data.payload@
                &&& data@ == shred@
            },
            Shred::ShredCode(code) => {
                &&& shred@.headers == ShredHeaders::Code(code.common_header, code.coding_header)
                &&& shred@.payload == code.payload@
                &&& code@ == shred@
            },
        },
{
}

/// Lists of shreds and of results stand for what they hold, one by one.
pub proof fn lists_stand_for_what_they_hold(
    shreds: Seq<Shred>,
    all: Seq<Result<Shred, Error>>,
    i: int,
)
    ensures
        views(shreds).len() == shreds.len(),
        0 <= i < shreds.len() ==> views(shreds)[i] == shreds[i]@,
        results(all).len() == all.len(),
        0 <= i < all.len() ==> match all[i] {
            Ok(shred) => results(all)[i] == Ok::<_, Error>(shred@),
            Err(e) => results(all)[i] == Err::<ShredView, _>(e),
        },
{
}

/// Shreds, headers and payloads are equal if and only if all of what they hold is.
pub proof fn equal_means_equal_in_all(
    shred: Shred,
    other: Shred,
    payload: Payload,
    other_payload: Payload,
    header: ShredCommonHeader,
    other_header: ShredCommonHeader,
)
    ensures
        shred.eq_spec(&other) <==> shred@.headers == other@.headers && shred@.payload
            == other@.payload,
        payload.eq_spec(&other_payload) <==> payload@ == other_payload@,
        header.eq_spec(&other_header) <==> header == other_header,
        <Shred as PartialEqSpec>::obeys_eq_spec(),
        <Payload as PartialEqSpec>::obeys_eq_spec(),
        <ShredCommonHeader as PartialEqSpec>::obeys_eq_spec(),
{
}

/// Bytes are made from types and variants, and these from bytes, by the numbers of the format.
pub proof fn types_and_variants_are_bytes(byte: u8, variant: ShredVariant)
    ensures
        <u8 as FromSpec<ShredType>>::from_spec(ShredType::Data) == 0xa5,
        <u8 as FromSpec<ShredType>>::from_spec(ShredType::Code) == 0x5a,
        <ShredType as FromSpec<ShredVariant>>::from_spec(variant) == (if variant is MerkleData {
            ShredType::Data
        } else {
            ShredType::Code
        }),
        match <ShredType as TryFromSpec<u8>>::try_from_spec(byte) {
            Ok(ShredType::Data) => byte == 0xa5,
            Ok(ShredType::Code) => byte == 0x5a,
            Err(e) => byte != 0xa5 && byte != 0x5a && e.number == byte,
        },
        match <ShredVariant as TryFromSpec<u8>>::try_from_spec(byte) {
            Ok(found) => is_variant_byte(byte) && <u8 as FromSpec<ShredVariant>>::from_spec(found)
                == byte && (found is MerkleData <==> byte >= 0x90),
            Err(e) => !is_variant_byte(byte) && e == Error::InvalidShredVariant,
        },
        <ShredVariant as TryFromSpec<u8>>::obeys_try_from_spec(),
        <ShredType as TryFromSpec<u8>>::obeys_try_from_spec(),
        <u8 as FromSpec<ShredVariant>>::obeys_from_spec(),
        <u8 as FromSpec<ShredType>>::obeys_from_spec(),
        <ShredType as FromSpec<ShredVariant>>::obeys_from_spec(),
{
    variant_bytes(byte);
    crate::shred_type::byte_variant_round_trip(byte);
}

} // verus!
