//! The headers of shreds and their layout on the wire.
//!
//! All integers are little-endian. The common header takes 83 bytes: the signature, the variant
//! byte, the slot, the index, the version and the index of the erasure batch. The data header that
//! follows it takes 5 bytes, the coding header 6.
use crate::{
    Signature, Slot, SIZE_OF_CODING_SHRED_HEADERS, SIZE_OF_COMMON_SHRED_HEADER,
    SIZE_OF_DATA_SHRED_HEADERS,
};
use crate::bytes_util::{
    array_of, bytes_eq, bytes_of_u16, bytes_of_u32, bytes_of_u64, le_u16, le_u32, le_u64,
    lemma_array_of, lemma_le_u16_round_trip, lemma_le_u32_round_trip, lemma_le_u64_round_trip,
    read_array, read_u16, read_u32, read_u64, splice, u16_le_bytes, u32_le_bytes, u64_le_bytes,
    write_at,
};
use crate::error::{ReadError, WriteError};
use crate::flags::ShredFlags;
use crate::shred_type::{variant_byte_round_trip, variant_of_byte, ShredVariant};
use vstd::prelude::*;

verus! {

/// The header that every shred starts with.
#[derive(Clone, Copy, Debug)]
pub struct ShredCommonHeader {
    pub signature: Signature,
    pub shred_variant: ShredVariant,
    pub slot: Slot,
    pub index: u32,
    pub version: u16,
    pub fec_set_index: u32,
}

/// The header of a data shred: how many slots back the parent is, the flags, and the size of both
/// headers and the data.
#[derive(Clone, Copy, Debug, PartialEq, Eq, Structural)]
pub struct DataShredHeader {
    pub parent_offset: u16,
    pub flags: ShredFlags,
    pub size: u16,
}

/// The header of a coding shred: the size of its erasure batch and its position among the coding
/// shreds of the batch.
#[derive(Clone, Copy, Debug, PartialEq, Eq, Structural)]
pub struct CodingShredHeader {
    pub num_data_shreds: u16,
    pub num_coding_shreds: u16,
    pub position: u16,
}

impl PartialEq for ShredCommonHeader {
    fn eq(&self, other: &ShredCommonHeader) -> (eq: bool) {
        let eq = bytes_eq(&self.signature, &other.signature) && self.shred_variant
            == other.shred_variant && self.slot == other.slot && self.index == other.index
            && self.version == other.version && self.fec_set_index == other.fec_set_index;
        proof {
            if eq {
                assert(self.signature =~= other.signature);
            }
        }
        eq
    }
}

impl vstd::std_specs::cmp::PartialEqSpecImpl for ShredCommonHeader {
    open spec fn obeys_eq_spec() -> bool {
        true
    }

    open spec fn eq_spec(&self, other: &ShredCommonHeader) -> bool {
        *self == *other
    }
}

/// The common header that the bytes of `s` hold.
pub open spec fn common_header_of(s: Seq<u8>) -> Result<ShredCommonHeader, ReadError> {
    match variant_of_byte(s[64]) {
        None => Err(ReadError::InvalidTagEncoding(s[64] as usize)),
        Some(shred_variant) => Ok(
            ShredCommonHeader {
                signature: array_of::<64>(s.subrange(0, 64)),
                shred_variant,
                slot: le_u64(s, 65),
                index: le_u32(s, 73),
                version: le_u16(s, 77),
                fec_set_index: le_u32(s, 79),
            },
        ),
    }
}

/// The data header that the bytes of `s` hold behind the common header.
pub open spec fn data_header_of(s: Seq<u8>) -> DataShredHeader {
    DataShredHeader {
        parent_offset: le_u16(s, 83),
        flags: ShredFlags { bits: s[85] },
        size: le_u16(s, 86),
    }
}

/// The coding header that the bytes of `s` hold behind the common header.
pub open spec fn coding_header_of(s: Seq<u8>) -> CodingShredHeader {
    CodingShredHeader {
        num_data_shreds: le_u16(s, 83),
        num_coding_shreds: le_u16(s, 85),
        position: le_u16(s, 87),
    }
}

/// What reading both headers of a data shred off the front of `s` gives.
pub open spec fn data_headers_of(s: Seq<u8>) -> Result<
    (ShredCommonHeader, DataShredHeader),
    ReadError,
> {
    if s.len() < SIZE_OF_DATA_SHRED_HEADERS {
        Err(ReadError::ReadSizeLimit(SIZE_OF_DATA_SHRED_HEADERS))
    } else {
        match common_header_of(s) {
            Ok(common_header) => Ok((common_header, data_header_of(s))),
            Err(e) => Err(e),
        }
    }
}

/// What reading both headers of a coding shred off the front of `s` gives.
pub open spec fn coding_headers_of(s: Seq<u8>) -> Result<
    (ShredCommonHeader, CodingShredHeader),
    ReadError,
> {
    if s.len() < SIZE_OF_CODING_SHRED_HEADERS {
        Err(ReadError::ReadSizeLimit(SIZE_OF_CODING_SHRED_HEADERS))
    } else {
        match common_header_of(s) {
            Ok(common_header) => Ok((common_header, coding_header_of(s))),
            Err(e) => Err(e),
        }
    }
}

/// The bytes of a common header.
pub open spec fn common_header_bytes(header: ShredCommonHeader) -> Seq<u8> {
    header.signature@ + seq![header.shred_variant.byte()] + u64_le_bytes(header.slot)
        + u32_le_bytes(header.index) + u16_le_bytes(header.version) + u32_le_bytes(
        header.fec_set_index,
    )
}

/// The bytes of a coding header.
pub open spec fn coding_header_bytes(header: CodingShredHeader) -> Seq<u8> {
    u16_le_bytes(header.num_data_shreds) + u16_le_bytes(header.num_coding_shreds) + u16_le_bytes(
        header.position,
    )
}

/// The bytes of both headers of a coding shred.
pub open spec fn coding_headers_bytes(
    common_header: ShredCommonHeader,
    coding_header: CodingShredHeader,
) -> Seq<u8> {
    common_header_bytes(common_header) + coding_header_bytes(coding_header)
}

/// Reads the common header off the front of `s`.
fn read_common_header(s: &[u8]) -> (header: Result<ShredCommonHeader, ReadError>)
    requires
        s.len() >= SIZE_OF_COMMON_SHRED_HEADER,
    ensures
        header == common_header_of(s@),
{
    match ShredVariant::try_from(s[64]) {
        Err(_) => Err(ReadError::InvalidTagEncoding(s[64] as usize)),
        Ok(shred_variant) => {
            let signature = read_array::<64>(s, 0);
            Ok(
                ShredCommonHeader {
                    signature,
                    shred_variant,
                    slot: read_u64(s, 65),
                    index: read_u32(s, 73),
                    version: read_u16(s, 77),
                    fec_set_index: read_u32(s, 79),
                },
            )
        },
    }
}

/// Reads both headers of a data shred off the front of `s`.
pub fn deserialize_data_headers(s: &[u8]) -> (headers: Result<
    (ShredCommonHeader, DataShredHeader),
    ReadError,
>)
    ensures
        headers == data_headers_of(s@),
{
    if s.len() < SIZE_OF_DATA_SHRED_HEADERS {
        return Err(ReadError::ReadSizeLimit(SIZE_OF_DATA_SHRED_HEADERS));
    }
    match read_common_header(s) {
        Err(e) => Err(e),
        Ok(common_header) => Ok(
            (
                common_header,
                DataShredHeader {
                    parent_offset: read_u16(s, 83),
                    flags: ShredFlags::from_bits_retain(s[85]),
                    size: read_u16(s, 86),
                },
            ),
        ),
    }
}

/// Reads both headers of a coding shred off the front of `s`.
pub fn deserialize_coding_headers(s: &[u8]) -> (headers: Result<
    (ShredCommonHeader, CodingShredHeader),
    ReadError,
>)
    ensures
        headers == coding_headers_of(s@),
{
    if s.len() < SIZE_OF_CODING_SHRED_HEADERS {
        return Err(ReadError::ReadSizeLimit(SIZE_OF_CODING_SHRED_HEADERS));
    }
    match read_common_header(s) {
        Err(e) => Err(e),
        Ok(common_header) => Ok(
            (
                common_header,
                CodingShredHeader {
                    num_data_shreds: read_u16(s, 83),
                    num_coding_shreds: read_u16(s, 85),
                    position: read_u16(s, 87),
                },
            ),
        ),
    }
}

/// Writes both headers of a coding shred to the front of `buffer`.
pub fn serialize_coding_headers_into(
    buffer: &mut [u8],
    common_header: &ShredCommonHeader,
    coding_header: &CodingShredHeader,
) -> (done: Result<(), WriteError>)
    ensures
        done == if old(buffer)@.len() < SIZE_OF_CODING_SHRED_HEADERS {
            Err(WriteError::WriteSizeLimit(SIZE_OF_CODING_SHRED_HEADERS))
        } else {
            Ok(())
        },
        final(buffer)@ == if done is Ok {
            splice(old(buffer)@, 0, coding_headers_bytes(*common_header, *coding_header))
        } else {
            old(buffer)@
        },
{
    if buffer.len() < SIZE_OF_CODING_SHRED_HEADERS {
        return Err(WriteError::WriteSizeLimit(SIZE_OF_CODING_SHRED_HEADERS));
    }
    let variant: [u8; 1] = [u8::from(common_header.shred_variant)];
    write_at(buffer, 0, &common_header.signature);
    write_at(buffer, 64, &variant);
    write_at(buffer, 65, &bytes_of_u64(common_header.slot));
    write_at(buffer, 73, &bytes_of_u32(common_header.index));
    write_at(buffer, 77, &bytes_of_u16(common_header.version));
    write_at(buffer, 79, &bytes_of_u32(common_header.fec_set_index));
    write_at(buffer, 83, &bytes_of_u16(coding_header.num_data_shreds));
    write_at(buffer, 85, &bytes_of_u16(coding_header.num_coding_shreds));
    write_at(buffer, 87, &bytes_of_u16(coding_header.position));
    assert(buffer@ =~= splice(
        old(buffer)@,
        0,
        coding_headers_bytes(*common_header, *coding_header),
    ));
    Ok(())
}

/// Headers of a coding shred that were written to the front of `s` are read back from there.
pub proof fn coding_headers_round_trip(
    common_header: ShredCommonHeader,
    coding_header: CodingShredHeader,
    s: Seq<u8>,
)
    requires
        common_header.shred_variant.encodable(),
        s.len() >= SIZE_OF_CODING_SHRED_HEADERS,
        s.subrange(0, SIZE_OF_CODING_SHRED_HEADERS as int) == coding_headers_bytes(
            common_header,
            coding_header,
        ),
    ensures
        coding_headers_of(s) == Ok::<_, ReadError>((common_header, coding_header)),
{
    let b = coding_headers_bytes(common_header, coding_header);
    assert forall|i: int| 0 <= i < SIZE_OF_CODING_SHRED_HEADERS implies s[i] == b[i] by {
        assert(s.subrange(0, SIZE_OF_CODING_SHRED_HEADERS as int)[i] == s[i]);
    }
    assert(s.subrange(0, 64) =~= common_header.signature@);
    lemma_array_of::<64>(common_header.signature);
    variant_byte_round_trip(common_header.shred_variant);
    lemma_le_u64_round_trip(common_header.slot);
    assert(le_u64(s, 65) == le_u64(u64_le_bytes(common_header.slot), 0));
    lemma_le_u32_round_trip(common_header.index);
    lemma_le_u16_round_trip(common_header.version);
    lemma_le_u32_round_trip(common_header.fec_set_index);
    lemma_le_u16_round_trip(coding_header.num_data_shreds);
    lemma_le_u16_round_trip(coding_header.num_coding_shreds);
    lemma_le_u16_round_trip(coding_header.position);
}

/// The headers of a data shred depend on nothing behind them.
pub proof fn data_headers_are_a_prefix(s: Seq<u8>, t: Seq<u8>)
    requires
        s.len() >= SIZE_OF_DATA_SHRED_HEADERS,
        t.len() >= SIZE_OF_DATA_SHRED_HEADERS,
        forall|i: int| 0 <= i < SIZE_OF_DATA_SHRED_HEADERS ==> s[i] == t[i],
    ensures
        data_headers_of(s) == data_headers_of(t),
{
    assert(s.subrange(0, 64) =~= t.subrange(0, 64));
}

/// The headers of a coding shred depend on nothing behind them.
pub proof fn coding_headers_are_a_prefix(s: Seq<u8>, t: Seq<u8>)
    requires
        s.len() >= SIZE_OF_CODING_SHRED_HEADERS,
        t.len() >= SIZE_OF_CODING_SHRED_HEADERS,
        forall|i: int| 0 <= i < SIZE_OF_CODING_SHRED_HEADERS ==> s[i] == t[i],
    ensures
        coding_headers_of(s) == coding_headers_of(t),
{
    assert(s.subrange(0, 64) =~= t.subrange(0, 64));
}

} // verus!
