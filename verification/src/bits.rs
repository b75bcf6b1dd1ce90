//! Masks, extraction and placement of bit ranges in a 64-bit carrier.
//!
//! Bit 0 is the least significant bit. A range is given by its first bit and
//! its number of bits.

use vstd::arithmetic::power2::{lemma2_to64_rest, pow2};
use vstd::bits::{lemma_u64_pow2_no_overflow, lemma_u64_shl_is_mul};
use vstd::prelude::*;

verus! {

/// The largest number that `bit_count` bits can hold: `2^bit_count - 1`.
pub open spec fn max_representable(bit_count: nat) -> nat {
    (pow2(bit_count) - 1) as nat
}

/// The word whose low `bit_count` bits are set and whose other bits are clear.
/// From 64 bits on this is the full word, so that no shift by the whole width
/// is ever made.
pub open spec fn low_mask(bit_count: u32) -> u64 {
    if bit_count >= 64 {
        0xffff_ffff_ffff_ffffu64
    } else {
        ((1u64 << bit_count) - 1) as u64
    }
}

/// The `bit_count` bits of `word` from bit `bit_start` upwards, moved down to
/// bit 0.
pub open spec fn extract_bits(word: u64, bit_start: u32, bit_count: u32) -> u64 {
    (word >> bit_start) & low_mask(bit_count)
}

/// The low `bit_count` bits of `raw`, moved up to bit `bit_start`.
pub open spec fn place_bits(raw: u64, bit_start: u32, bit_count: u32) -> u64 {
    (raw & low_mask(bit_count)) << bit_start
}

/// The mask of `bit_count` bits is the number `2^bit_count - 1`.
pub proof fn lemma_low_mask_is_max_representable(bit_count: u32)
    requires
        bit_count <= 64,
    ensures
        low_mask(bit_count) == max_representable(bit_count as nat),
{
    if bit_count >= 64 {
        lemma2_to64_rest();
    } else {
        lemma_u64_pow2_no_overflow(bit_count as nat);
        lemma_u64_shl_is_mul(1, bit_count as u64);
        assert(1u64 << bit_count == 1u64 << (bit_count as u64)) by (bit_vector);
    }
}

/// A number that fits in `bit_count` bits is unchanged by the mask of
/// `bit_count` bits.
pub proof fn lemma_mask_keeps_small(raw: u64, bit_count: u32)
    requires
        raw <= low_mask(bit_count),
    ensures
        raw & low_mask(bit_count) == raw,
{
    assert(raw <= low_mask(bit_count) ==> raw & low_mask(bit_count) == raw) by (bit_vector);
}

/// Placing a number that fits and extracting the same range gives the number
/// back.
pub proof fn lemma_extract_of_place(raw: u64, bit_start: u32, bit_count: u32)
    requires
        bit_start + bit_count <= 64,
        raw <= low_mask(bit_count),
    ensures
        extract_bits(place_bits(raw, bit_start, bit_count), bit_start, bit_count) == raw,
{
    assert(bit_start + bit_count <= 64 && raw <= low_mask(bit_count) ==> extract_bits(
        place_bits(raw, bit_start, bit_count),
        bit_start,
        bit_count,
    ) == raw) by (bit_vector);
}

/// Extraction goes through a bitwise OR.
pub proof fn lemma_extract_of_or(a: u64, b: u64, bit_start: u32, bit_count: u32)
    ensures
        extract_bits(a | b, bit_start, bit_count) == extract_bits(a, bit_start, bit_count)
            | extract_bits(b, bit_start, bit_count),
{
    let mask = low_mask(bit_count);
    assert(((a | b) >> bit_start) & mask == ((a >> bit_start) & mask) | ((b >> bit_start) & mask))
        by (bit_vector);
}

/// Nothing can be extracted from the empty word.
pub proof fn lemma_extract_of_zero(bit_start: u32, bit_count: u32)
    ensures
        extract_bits(0, bit_start, bit_count) == 0,
{
    let mask = low_mask(bit_count);
    assert((0u64 >> bit_start) & mask == 0) by (bit_vector);
}

/// What is placed in one range leaves every range that does not overlap it
/// clear.
pub proof fn lemma_extract_of_disjoint_place(
    raw: u64,
    bit_start: u32,
    bit_count: u32,
    other_start: u32,
    other_count: u32,
)
    requires
        bit_start + bit_count <= 64,
        other_start + other_count <= 64,
        bit_start + bit_count <= other_start || other_start + other_count <= bit_start,
    ensures
        extract_bits(place_bits(raw, bit_start, bit_count), other_start, other_count) == 0,
{
    assert(bit_start + bit_count <= 64 && other_start + other_count <= 64 && (bit_start + bit_count
        <= other_start || other_start + other_count <= bit_start) ==> extract_bits(
        place_bits(raw, bit_start, bit_count),
        other_start,
        other_count,
    ) == 0) by (bit_vector);
}

/// A range that ends below bit `word_bits` places nothing at or above that
/// bit.
pub proof fn lemma_place_fits_word(raw: u64, bit_start: u32, bit_count: u32, word_bits: u32)
    requires
        bit_start + bit_count <= word_bits <= 64,
    ensures
        place_bits(raw, bit_start, bit_count) <= low_mask(word_bits),
{
    assert(bit_start + bit_count <= word_bits && word_bits <= 64 ==> place_bits(
        raw,
        bit_start,
        bit_count,
    ) <= low_mask(word_bits)) by (bit_vector);
}

/// The OR of two words that fit in `word_bits` bits fits in `word_bits` bits.
pub proof fn lemma_or_fits_word(a: u64, b: u64, word_bits: u32)
    requires
        a <= low_mask(word_bits),
        b <= low_mask(word_bits),
    ensures
        a | b <= low_mask(word_bits),
{
    assert(a <= low_mask(word_bits) && b <= low_mask(word_bits) ==> a | b <= low_mask(word_bits))
        by (bit_vector);
}

/// The mask of `bit_count` bits, computed without overflow.
pub fn mask_of(bit_count: u32) -> (mask: u64)
    ensures
        mask == low_mask(bit_count),
{
    if bit_count >= 64 {
        u64::MAX
    } else {
        assert((1u64 << bit_count) >= 1) by (bit_vector)
            requires
                bit_count < 64,
        ;
        (1u64 << bit_count) - 1
    }
}

} // verus!
