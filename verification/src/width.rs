//! The four widths a register word can have.

use crate::bits::{lemma_low_mask_is_max_representable, low_mask, max_representable};
use vstd::prelude::*;

verus! {

/// The width of a register word: 8, 16, 32 or 64 bits.
#[derive(Clone, Copy, Debug, PartialEq, Eq, Structural)]
pub enum WordWidth {
    /// An 8-bit word.
    W8,
    /// A 16-bit word.
    W16,
    /// A 32-bit word.
    W32,
    /// A 64-bit word.
    W64,
}

impl WordWidth {
    /// The number of bits of a word of this width.
    pub open spec fn spec_bits(self) -> u32 {
        match self {
            WordWidth::W8 => 8,
            WordWidth::W16 => 16,
            WordWidth::W32 => 32,
            WordWidth::W64 => 64,
        }
    }

    /// The largest number that a word of this width holds.
    pub open spec fn spec_max_value(self) -> u64 {
        match self {
            WordWidth::W8 => 0xff,
            WordWidth::W16 => 0xffff,
            WordWidth::W32 => 0xffff_ffff,
            WordWidth::W64 => 0xffff_ffff_ffff_ffff,
        }
    }

    /// The number of bits of a word of this width.
    #[verifier::when_used_as_spec(spec_bits)]
    pub fn bits(self) -> (bits: u32)
        ensures
            bits == self.spec_bits(),
    {
        match self {
            WordWidth::W8 => 8,
            WordWidth::W16 => 16,
            WordWidth::W32 => 32,
            WordWidth::W64 => 64,
        }
    }

    /// The largest number that a word of this width holds.
    #[verifier::when_used_as_spec(spec_max_value)]
    pub fn max_value(self) -> (max: u64)
        ensures
            max == self.spec_max_value(),
    {
        match self {
            WordWidth::W8 => 0xff,
            WordWidth::W16 => 0xffff,
            WordWidth::W32 => 0xffff_ffff,
            WordWidth::W64 => u64::MAX,
        }
    }

    /// The width that has `bits` bits, if there is one.
    pub fn from_bits(bits: u32) -> (width: Option<WordWidth>)
        ensures
            width is Some <==> (bits == 8 || bits == 16 || bits == 32 || bits == 64),
            width matches Some(w) ==> w.spec_bits() == bits,
    {
        if bits == 8 {
            Some(WordWidth::W8)
        } else if bits == 16 {
            Some(WordWidth::W16)
        } else if bits == 32 {
            Some(WordWidth::W32)
        } else if bits == 64 {
            Some(WordWidth::W64)
        } else {
            None
        }
    }

    /// The width of a word of `num_bytes` bytes, if there is one.
    pub fn from_num_bytes(num_bytes: usize) -> (width: Option<WordWidth>)
        ensures
            width is Some <==> (num_bytes == 1 || num_bytes == 2 || num_bytes == 4 || num_bytes
                == 8),
            width matches Some(w) ==> w.spec_bits() == 8 * num_bytes,
    {
        if num_bytes == 1 {
            Some(WordWidth::W8)
        } else if num_bytes == 2 {
            Some(WordWidth::W16)
        } else if num_bytes == 4 {
            Some(WordWidth::W32)
        } else if num_bytes == 8 {
            Some(WordWidth::W64)
        } else {
            None
        }
    }

    /// The largest number of a width is the mask of all its bits, which is
    /// `2^bits - 1`.
    pub proof fn lemma_max_value(self)
        ensures
            self.spec_max_value() == low_mask(self.spec_bits()),
            self.spec_max_value() == max_representable(self.spec_bits() as nat),
    {
        let bits = self.spec_bits();
        assert(low_mask(8) == 0xff) by (bit_vector);
        assert(low_mask(16) == 0xffff) by (bit_vector);
        assert(low_mask(32) == 0xffff_ffff) by (bit_vector);
        assert(low_mask(64) == 0xffff_ffff_ffff_ffff) by (bit_vector);
        lemma_low_mask_is_max_representable(bits);
    }
}

} // verus!
