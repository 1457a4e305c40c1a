//! The flags of a data shred.
use vstd::prelude::*;

verus! {

/// The bits that hold the reference tick.
pub const SHRED_TICK_REFERENCE_MASK: u8 = 0b0011_1111;

/// Set in the last data shred of a block of entries.
pub const DATA_COMPLETE_SHRED: u8 = 0b0100_0000;

/// Set in the last data shred of a slot. It includes `DATA_COMPLETE_SHRED`, so a shred cannot be
/// the last of its slot and not complete its data.
pub const LAST_SHRED_IN_SLOT: u8 = 0b1100_0000;

/// The flags byte of a data shred. Each of its bits has a meaning.
#[derive(Clone, Copy, Debug, PartialEq, Eq, Structural)]
pub struct ShredFlags {
    pub bits: u8,
}

impl Default for ShredFlags {
    fn default() -> (flags: ShredFlags)
        ensures
            flags.bits == 0,
    {
        ShredFlags { bits: 0 }
    }
}

impl ShredFlags {
    /// Whether each bit of `mask` is set.
    pub open spec fn has(self, mask: u8) -> bool {
        self.bits & mask == mask
    }

    /// No flag, and reference tick zero.
    pub fn empty() -> (flags: ShredFlags)
        ensures
            flags.bits == 0,
    {
        ShredFlags { bits: 0 }
    }

    /// The flags with the given bits; `None` if one of the bits had no meaning, which is never so.
    pub fn from_bits(bits: u8) -> (flags: Option<ShredFlags>)
        ensures
            flags == Some(ShredFlags { bits }),
    {
        let known: u8 = SHRED_TICK_REFERENCE_MASK | DATA_COMPLETE_SHRED | LAST_SHRED_IN_SLOT;
        assert(bits & !(0b0011_1111u8 | 0b0100_0000u8 | 0b1100_0000u8) == 0) by (bit_vector);
        if bits & !known == 0 {
            Some(ShredFlags { bits })
        } else {
            None
        }
    }

    /// The flags with the given bits.
    pub fn from_bits_retain(bits: u8) -> (flags: ShredFlags)
        ensures
            flags.bits == bits,
    {
        ShredFlags { bits }
    }

    /// The flags that hold the reference tick, or the largest one that fits.
    pub fn from_reference_tick(reference_tick: u8) -> (flags: ShredFlags)
        ensures
            flags.bits == if reference_tick < 63 {
                reference_tick
            } else {
                63
            },
            flags.bits == if reference_tick < SHRED_TICK_REFERENCE_MASK {
                reference_tick
            } else {
                SHRED_TICK_REFERENCE_MASK
            },
    {
        let tick: u8 = if reference_tick < SHRED_TICK_REFERENCE_MASK {
            reference_tick
        } else {
            SHRED_TICK_REFERENCE_MASK
        };
        Self::from_bits_retain(tick)
    }

    /// The flags as a byte.
    pub fn bits(&self) -> (bits: u8)
        ensures
            bits == self.bits,
    {
        self.bits
    }

    /// Whether all bits of `mask` are set.
    pub fn contains(&self, mask: u8) -> (all: bool)
        ensures
            all == self.has(mask),
    {
        self.bits & mask == mask
    }

    /// Whether one of the bits of `mask` is set.
    pub fn intersects(&self, mask: u8) -> (any: bool)
        ensures
            any == (self.bits & mask != 0),
    {
        self.bits & mask != 0
    }
}

/// A shred that is the last of its slot completes its data.
pub proof fn last_in_slot_completes_data(flags: ShredFlags)
    requires
        flags.has(LAST_SHRED_IN_SLOT),
    ensures
        flags.has(DATA_COMPLETE_SHRED),
{
    let bits = flags.bits;
    assert(bits & 0b1100_0000 == 0b1100_0000 ==> bits & 0b0100_0000 == 0b0100_0000)
        by (bit_vector);
}

/// The flags made from a reference tick hold the tick, cut at the largest one, and set no flag.
pub proof fn reference_tick_is_kept(flags: ShredFlags, reference_tick: u8)
    requires
        flags.bits == if reference_tick < SHRED_TICK_REFERENCE_MASK {
            reference_tick
        } else {
            SHRED_TICK_REFERENCE_MASK
        },
    ensures
        flags.bits & SHRED_TICK_REFERENCE_MASK == flags.bits,
        !flags.has(DATA_COMPLETE_SHRED),
{
    let bits = flags.bits;
    assert(bits <= 0b0011_1111 ==> bits & 0b0011_1111 == bits) by (bit_vector);
    assert(bits <= 0b0011_1111 ==> bits & 0b0100_0000 != 0b0100_0000) by (bit_vector);
}

} // verus!
