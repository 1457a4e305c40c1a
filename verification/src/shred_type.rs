//! The type of a shred, and the variant byte that tells the type and the shape of the Merkle proof.
use crate::error::Error;
use vstd::prelude::*;

verus! {

/// Whether a shred carries data or redundancy.
#[derive(Clone, Copy, Debug, PartialEq, Eq, Hash, Structural)]
pub enum ShredType {
    Data,
    Code,
}

/// The byte that stands for a shred type.
pub open spec fn type_byte(shred_type: ShredType) -> u8 {
    match shred_type {
        ShredType::Data => 0b1010_0101,
        ShredType::Code => 0b0101_1010,
    }
}

impl From<ShredType> for u8 {
    fn from(shred_type: ShredType) -> (byte: u8) {
        match shred_type {
            ShredType::Data => 0b1010_0101,
            ShredType::Code => 0b0101_1010,
        }
    }
}

impl vstd::std_specs::convert::FromSpecImpl<ShredType> for u8 {
    open spec fn obeys_from_spec() -> bool {
        true
    }

    open spec fn from_spec(shred_type: ShredType) -> u8 {
        type_byte(shred_type)
    }
}

/// A byte that stands for no shred type.
#[derive(Clone, Copy, Debug, PartialEq, Eq, Structural)]
pub struct UnknownShredType {
    pub number: u8,
}

impl TryFrom<u8> for ShredType {
    type Error = UnknownShredType;

    fn try_from(number: u8) -> (shred_type: Result<Self, UnknownShredType>) {
        match number {
            0b1010_0101 => Ok(ShredType::Data),
            0b0101_1010 => Ok(ShredType::Code),
            _ => Err(UnknownShredType { number }),
        }
    }
}

impl vstd::std_specs::convert::TryFromSpecImpl<u8> for ShredType {
    open spec fn obeys_try_from_spec() -> bool {
        true
    }

    open spec fn try_from_spec(number: u8) -> Result<Self, UnknownShredType> {
        if number == type_byte(ShredType::Data) {
            Ok(ShredType::Data)
        } else if number == type_byte(ShredType::Code) {
            Ok(ShredType::Code)
        } else {
            Err(UnknownShredType { number })
        }
    }
}

/// The type of a shred, the number of entries of its Merkle proof, and whether it ends with a
/// retransmitter's signature.
#[derive(Clone, Copy, Debug, PartialEq, Eq, Hash, Structural)]
pub enum ShredVariant {
    MerkleCode { proof_size: u8, resigned: bool },
    MerkleData { proof_size: u8, resigned: bool },
}

impl ShredVariant {
    /// The type of the shreds of this variant.
    pub open spec fn kind(self) -> ShredType {
        match self {
            ShredVariant::MerkleCode { .. } => ShredType::Code,
            ShredVariant::MerkleData { .. } => ShredType::Data,
        }
    }

    /// The number of entries of the Merkle proof.
    pub open spec fn entries(self) -> u8 {
        match self {
            ShredVariant::MerkleCode { proof_size, .. } => proof_size,
            ShredVariant::MerkleData { proof_size, .. } => proof_size,
        }
    }

    /// Whether there is a retransmitter's signature.
    pub open spec fn signed_again(self) -> bool {
        match self {
            ShredVariant::MerkleCode { resigned, .. } => resigned,
            ShredVariant::MerkleData { resigned, .. } => resigned,
        }
    }

    /// The upper half of the variant byte.
    pub open spec fn tag(self) -> u8 {
        match self {
            ShredVariant::MerkleCode { resigned: false, .. } => 0x60,
            ShredVariant::MerkleCode { resigned: true, .. } => 0x70,
            ShredVariant::MerkleData { resigned: false, .. } => 0x90,
            ShredVariant::MerkleData { resigned: true, .. } => 0xb0,
        }
    }

    /// Whether the proof size fits the lower half of the variant byte.
    pub open spec fn encodable(self) -> bool {
        self.entries() < 16
    }

    /// The byte that stands for the variant on the wire.
    pub open spec fn byte(self) -> u8 {
        self.entries() | self.tag()
    }
}

/// The variant that a byte stands for: the upper half is its tag, the lower half the proof size.
pub open spec fn variant_of_byte(byte: u8) -> Option<ShredVariant> {
    let proof_size = byte & 0x0F;
    if byte & 0xF0 == 0x60 {
        Some(ShredVariant::MerkleCode { proof_size, resigned: false })
    } else if byte & 0xF0 == 0x70 {
        Some(ShredVariant::MerkleCode { proof_size, resigned: true })
    } else if byte & 0xF0 == 0x90 {
        Some(ShredVariant::MerkleData { proof_size, resigned: false })
    } else if byte & 0xF0 == 0xb0 {
        Some(ShredVariant::MerkleData { proof_size, resigned: true })
    } else {
        None
    }
}

/// A variant whose proof size fits is read back from its byte.
pub proof fn variant_byte_round_trip(variant: ShredVariant)
    requires
        variant.encodable(),
    ensures
        variant_of_byte(variant.byte()) == Some(variant),
{
    let p = variant.entries();
    assert(p < 16 ==> (p | 0x60) & 0x0F == p && (p | 0x60) & 0xF0 == 0x60) by (bit_vector);
    assert(p < 16 ==> (p | 0x70) & 0x0F == p && (p | 0x70) & 0xF0 == 0x70) by (bit_vector);
    assert(p < 16 ==> (p | 0x90) & 0x0F == p && (p | 0x90) & 0xF0 == 0x90) by (bit_vector);
    assert(p < 16 ==> (p | 0xb0) & 0x0F == p && (p | 0xb0) & 0xF0 == 0xb0) by (bit_vector);
}

/// A byte that stands for a variant is the byte of that variant, whose proof size fits.
pub proof fn byte_variant_round_trip(byte: u8)
    ensures
        variant_of_byte(byte) matches Some(variant) ==> variant.encodable() && variant.byte() == byte,
{
    assert(byte & 0x0F < 16) by (bit_vector);
    assert((byte & 0x0F) | (byte & 0xF0) == byte) by (bit_vector);
}

/// The bytes of the two shred types stand for no variant.
pub proof fn type_bytes_are_no_variants(shred_type: ShredType)
    ensures
        variant_of_byte(type_byte(shred_type)) is None,
{
    assert(0b1010_0101u8 & 0xF0 == 0xa0) by (bit_vector);
    assert(0b0101_1010u8 & 0xF0 == 0x50) by (bit_vector);
}

impl From<ShredVariant> for ShredType {
    fn from(shred_variant: ShredVariant) -> (shred_type: ShredType) {
        match shred_variant {
            ShredVariant::MerkleCode { .. } => ShredType::Code,
            ShredVariant::MerkleData { .. } => ShredType::Data,
        }
    }
}

impl vstd::std_specs::convert::FromSpecImpl<ShredVariant> for ShredType {
    open spec fn obeys_from_spec() -> bool {
        true
    }

    open spec fn from_spec(shred_variant: ShredVariant) -> ShredType {
        shred_variant.kind()
    }
}

impl From<ShredVariant> for u8 {
    fn from(shred_variant: ShredVariant) -> (byte: u8) {
        match shred_variant {
            ShredVariant::MerkleCode { proof_size, resigned: false } => proof_size | 0x60,
            ShredVariant::MerkleCode { proof_size, resigned: true } => proof_size | 0x70,
            ShredVariant::MerkleData { proof_size, resigned: false } => proof_size | 0x90,
            ShredVariant::MerkleData { proof_size, resigned: true } => proof_size | 0xb0,
        }
    }
}

impl vstd::std_specs::convert::FromSpecImpl<ShredVariant> for u8 {
    open spec fn obeys_from_spec() -> bool {
        true
    }

    open spec fn from_spec(shred_variant: ShredVariant) -> u8 {
        shred_variant.byte()
    }
}

impl TryFrom<u8> for ShredVariant {
    type Error = Error;

    fn try_from(shred_variant: u8) -> (variant: Result<Self, Error>) {
        if shred_variant == u8::from(ShredType::Code) || shred_variant == u8::from(ShredType::Data) {
            proof {
                type_bytes_are_no_variants(ShredType::Code);
                type_bytes_are_no_variants(ShredType::Data);
            }
            Err(Error::InvalidShredVariant)
        } else {
            let proof_size: u8 = shred_variant & 0x0F;
            match shred_variant & 0xF0 {
                0x60 => Ok(ShredVariant::MerkleCode { proof_size, resigned: false }),
                0x70 => Ok(ShredVariant::MerkleCode { proof_size, resigned: true }),
                0x90 => Ok(ShredVariant::MerkleData { proof_size, resigned: false }),
                0xb0 => Ok(ShredVariant::MerkleData { proof_size, resigned: true }),
                _ => Err(Error::InvalidShredVariant),
            }
        }
    }
}

impl vstd::std_specs::convert::TryFromSpecImpl<u8> for ShredVariant {
    open spec fn obeys_try_from_spec() -> bool {
        true
    }

    open spec fn try_from_spec(shred_variant: u8) -> Result<Self, Error> {
        match variant_of_byte(shred_variant) {
            Some(variant) => Ok(variant),
            None => Err(Error::InvalidShredVariant),
        }
    }
}

} // verus!
