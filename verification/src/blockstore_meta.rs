//! The size of an erasure batch.
use crate::DATA_SHREDS_PER_FEC_BLOCK;
use vstd::prelude::*;

verus! {

/// Numbers of data and of coding shreds of an erasure batch.
#[derive(Clone, Copy, Debug, PartialEq, Eq, Structural)]
pub struct ErasureConfig {
    pub num_data: usize,
    pub num_coding: usize,
}

impl ErasureConfig {
    /// Whether the batch is of the one size that all batches have.
    pub fn is_fixed(&self) -> (fixed: bool)
        ensures
            fixed == (self.num_data == 32 && self.num_coding == 32),
            fixed == (self.num_data == DATA_SHREDS_PER_FEC_BLOCK && self.num_coding
                == DATA_SHREDS_PER_FEC_BLOCK),
    {
        self.num_data == DATA_SHREDS_PER_FEC_BLOCK && self.num_coding == DATA_SHREDS_PER_FEC_BLOCK
    }
}

} // verus!
