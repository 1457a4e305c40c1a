//! Errors of parsing, checking and recovering shreds.
use crate::Slot;
use crate::header::{CodingShredHeader, DataShredHeader, ShredCommonHeader};
use crate::shred_type::ShredType;
use vstd::prelude::*;

verus! {

/// Why headers could not be read.
#[derive(Clone, Copy, Debug, PartialEq, Eq, Structural)]
pub enum ReadError {
    /// Fewer bytes were left than the given number that the headers take.
    ReadSizeLimit(usize),
    /// The byte in the place of the shred variant stands for none.
    InvalidTagEncoding(usize),
}

/// Why headers could not be written.
#[derive(Clone, Copy, Debug, PartialEq, Eq, Structural)]
pub enum WriteError {
    /// The buffer has fewer bytes than the given number that the headers take.
    WriteSizeLimit(usize),
}

/// Why bytes could not be copied into a payload.
#[derive(Clone, Copy, Debug, PartialEq, Eq, Structural)]
pub enum IoError {
    /// The end of the payload was reached before all bytes were written.
    WriteZero,
}

/// Errors of the erasure code.
#[derive(Clone, Copy, Debug, PartialEq, Eq, Structural)]
pub enum ErasureError {
    TooFewShards,
    TooManyShards,
    TooFewDataShards,
    TooManyDataShards,
    TooFewParityShards,
    TooManyParityShards,
    TooFewBufferShards,
    TooManyBufferShards,
    IncorrectShardSize,
    TooFewShardsPresent,
    EmptyShard,
    InvalidShardFlags,
    InvalidIndex,
}

/// The headers of a shred whose place in its erasure batch makes no sense.
#[derive(Clone, Copy, Debug)]
pub enum ShredHeaders {
    Data(ShredCommonHeader, DataShredHeader),
    Code(ShredCommonHeader, CodingShredHeader),
}

#[derive(Debug)]
pub enum Error {
    WincodeRead(ReadError),
    WincodeWrite(WriteError),
    Erasure(ErasureError),
    InvalidDataSize { size: u16, payload: usize },
    InvalidDeshredSet,
    InvalidErasureConfig,
    InvalidErasureShardIndex(Box<ShredHeaders>),
    InvalidMerkleProof,
    InvalidMerkleRoot,
    InvalidNumCodingShreds(u16),
    InvalidParentOffset { slot: Slot, parent_offset: u16 },
    InvalidParentSlot { slot: Slot, parent_slot: Slot },
    InvalidPayloadSize(usize),
    InvalidProofSize(u8),
    InvalidRecoveredShred,
    InvalidShardSize(usize),
    InvalidShredFlags(u8),
    InvalidShredIndex(ShredType, u32),
    InvalidShredType,
    InvalidShredVariant,
    InvalidPacketSize,
    Io(IoError),
    UnknownProofSize,
    EmptyIterator,
}

} // verus!
