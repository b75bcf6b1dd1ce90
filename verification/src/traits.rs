//! Conversions between field values and the raw bits of a word.
//!
//! A field value of type `bool`, `u8`, `u16`, `u32` or `u64` turns into the bit
//! pattern of a word of any of the four widths, and back. Going to a narrower
//! word fails when the value does not fit.

use crate::bits::max_representable;
use vstd::arithmetic::power2::{lemma2_to64, lemma2_to64_rest};
use vstd::prelude::*;

verus! {

/// Types that are a bit register: convertible from and to an unsigned word `T`.
pub trait BitRegister<T>: Sized + TryFrom<T, Error = &'static str> + TryInto<
    T,
    Error = &'static str,
> {

}

/// The number of bytes of the underlying type.
pub trait NumBytes {
    /// Number of bytes of the underlying type.
    const NUM_BYTES: usize;
}

/// Types that convert to a bit pattern held in a word of type `T`.
pub trait TryIntoBits<T>: Sized {
    /// The bit pattern of `self`, or `None` where `T` cannot hold it.
    spec fn into_bits_spec(self) -> Option<T>;

    /// The message with which `try_into_bits` fails.
    spec fn into_bits_refusal() -> Seq<char>;

    /// Converts `self` to its bit pattern.
    fn try_into_bits(self) -> (r: Result<T, &'static str>)
        ensures
            r is Ok <==> self.into_bits_spec() is Some,
            r matches Ok(bits) ==> self.into_bits_spec() == Some(bits),
            r matches Err(message) ==> message@ == Self::into_bits_refusal(),
    ;
}

/// Types that convert from a bit pattern held in a word of type `T`.
pub trait TryFromBits<T>: Sized {
    /// The value that `bits` stands for, or `None` where it stands for none.
    spec fn from_bits_spec(bits: T) -> Option<Self>;

    /// The message with which `try_from_bits` fails.
    spec fn from_bits_refusal() -> Seq<char>;

    /// Converts a bit pattern to the value it stands for.
    fn try_from_bits(bits: T) -> (r: Result<Self, &'static str>)
        ensures
            r is Ok <==> Self::from_bits_spec(bits) is Some,
            r matches Ok(value) ==> Self::from_bits_spec(bits) == Some(value),
            r matches Err(message) ==> message@ == Self::from_bits_refusal(),
    ;
}

/// An unsigned integer of 8, 16, 32 or 64 bits that holds packed fields.
pub trait Word: Copy + NumBytes {
    /// The number that the word holds.
    spec fn value(self) -> nat;

    /// The word that holds `v`, or `None` where `v` needs more bits than the
    /// word has.
    spec fn from_value(v: nat) -> Option<Self>;

    /// The word's number, widened to 64 bits.
    fn to_u64(self) -> (raw: u64)
        ensures
            raw == self.value(),
            raw <= max_representable(8 * Self::NUM_BYTES as nat),
    ;

    /// The word that holds `raw`, if `raw` fits: a word of `NUM_BYTES` bytes
    /// holds the numbers up to `2^(8 * NUM_BYTES) - 1`.
    fn from_u64(raw: u64) -> (w: Option<Self>)
        ensures
            w == Self::from_value(raw as nat),
            w is Some <==> raw <= max_representable(8 * Self::NUM_BYTES as nat),
            w matches Some(x) ==> x.value() == raw,
    ;

    /// The word that holds 1 for `true` and 0 for `false`.
    fn from_bool(bit: bool) -> (w: Self)
        ensures
            Self::from_value(if bit { 1 } else { 0 }) == Some(w),
            w.value() == if bit { 1nat } else { 0nat },
    ;
}

/// `num_traits::Zero::zero` for `u8`: the crate implements it as the literal `0`.
pub assume_specification[ <u8 as num_traits::Zero>::zero ]() -> (r: u8)
    ensures
        r == 0,
;

/// `num_traits::One::one` for `u8`: the crate implements it as the literal `1`.
pub assume_specification[ <u8 as num_traits::One>::one ]() -> (r: u8)
    ensures
        r == 1,
;

/// `num_traits::Zero::zero` for `u16`: the crate implements it as the literal `0`.
pub assume_specification[ <u16 as num_traits::Zero>::zero ]() -> (r: u16)
    ensures
        r == 0,
;

/// `num_traits::One::one` for `u16`: the crate implements it as the literal `1`.
pub assume_specification[ <u16 as num_traits::One>::one ]() -> (r: u16)
    ensures
        r == 1,
;

/// `num_traits::Zero::zero` for `u32`: the crate implements it as the literal `0`.
pub assume_specification[ <u32 as num_traits::Zero>::zero ]() -> (r: u32)
    ensures
        r == 0,
;

/// `num_traits::One::one` for `u32`: the crate implements it as the literal `1`.
pub assume_specification[ <u32 as num_traits::One>::one ]() -> (r: u32)
    ensures
        r == 1,
;

/// `num_traits::Zero::zero` for `u64`: the crate implements it as the literal `0`.
pub assume_specification[ <u64 as num_traits::Zero>::zero ]() -> (r: u64)
    ensures
        r == 0,
;

/// `num_traits::One::one` for `u64`: the crate implements it as the literal `1`.
pub assume_specification[ <u64 as num_traits::One>::one ]() -> (r: u64)
    ensures
        r == 1,
;

impl NumBytes for u8 {
    const NUM_BYTES: usize = 1;
}

impl Word for u8 {
    open spec fn value(self) -> nat {
        self as nat
    }

    open spec fn from_value(v: nat) -> Option<u8> {
        if v <= u8::MAX {
            Some(v as u8)
        } else {
            None
        }
    }

    fn to_u64(self) -> (raw: u64) {
        proof {
            lemma2_to64();
        }
        self as u64
    }

    fn from_u64(raw: u64) -> (w: Option<u8>) {
        proof {
            lemma2_to64();
        }
        if raw <= u8::MAX as u64 {
            Some(raw as u8)
        } else {
            None
        }
    }

    fn from_bool(bit: bool) -> (w: u8) {
        if bit {
            <u8 as num_traits::One>::one()
        } else {
            <u8 as num_traits::Zero>::zero()
        }
    }
}

impl<T: Word> TryIntoBits<T> for u8 {
    open spec fn into_bits_spec(self) -> Option<T> {
        T::from_value(self as nat)
    }

    open spec fn into_bits_refusal() -> Seq<char> {
        "u8 value too large for target type"@
    }

    fn try_into_bits(self) -> (r: Result<T, &'static str>) {
        match T::from_u64(self as u64) {
            Some(bits) => Ok(bits),
            None => Err("u8 value too large for target type"),
        }
    }
}

impl<T: Word> TryFromBits<T> for u8 {
    open spec fn from_bits_spec(bits: T) -> Option<u8> {
        if bits.value() <= u8::MAX {
            Some(bits.value() as u8)
        } else {
            None
        }
    }

    open spec fn from_bits_refusal() -> Seq<char> {
        "bit pattern too large for target type u8"@
    }

    fn try_from_bits(bits: T) -> (r: Result<u8, &'static str>) {
        let raw = bits.to_u64();
        if raw <= u8::MAX as u64 {
            Ok(raw as u8)
        } else {
            Err("bit pattern too large for target type u8")
        }
    }
}

impl NumBytes for u16 {
    const NUM_BYTES: usize = 2;
}

impl Word for u16 {
    open spec fn value(self) -> nat {
        self as nat
    }

    open spec fn from_value(v: nat) -> Option<u16> {
        if v <= u16::MAX {
            Some(v as u16)
        } else {
            None
        }
    }

    fn to_u64(self) -> (raw: u64) {
        proof {
            lemma2_to64();
        }
        self as u64
    }

    fn from_u64(raw: u64) -> (w: Option<u16>) {
        proof {
            lemma2_to64();
        }
        if raw <= u16::MAX as u64 {
            Some(raw as u16)
        } else {
            None
        }
    }

    fn from_bool(bit: bool) -> (w: u16) {
        if bit {
            <u16 as num_traits::One>::one()
        } else {
            <u16 as num_traits::Zero>::zero()
        }
    }
}

impl<T: Word> TryIntoBits<T> for u16 {
    open spec fn into_bits_spec(self) -> Option<T> {
        T::from_value(self as nat)
    }

    open spec fn into_bits_refusal() -> Seq<char> {
        "u16 value too large for target type"@
    }

    fn try_into_bits(self) -> (r: Result<T, &'static str>) {
        match T::from_u64(self as u64) {
            Some(bits) => Ok(bits),
            None => Err("u16 value too large for target type"),
        }
    }
}

impl<T: Word> TryFromBits<T> for u16 {
    open spec fn from_bits_spec(bits: T) -> Option<u16> {
        if bits.value() <= u16::MAX {
            Some(bits.value() as u16)
        } else {
            None
        }
    }

    open spec fn from_bits_refusal() -> Seq<char> {
        "bit pattern too large for target type u16"@
    }

    fn try_from_bits(bits: T) -> (r: Result<u16, &'static str>) {
        let raw = bits.to_u64();
        if raw <= u16::MAX as u64 {
            Ok(raw as u16)
        } else {
            Err("bit pattern too large for target type u16")
        }
    }
}

impl NumBytes for u32 {
    const NUM_BYTES: usize = 4;
}

impl Word for u32 {
    open spec fn value(self) -> nat {
        self as nat
    }

    open spec fn from_value(v: nat) -> Option<u32> {
        if v <= u32::MAX {
            Some(v as u32)
        } else {
            None
        }
    }

    fn to_u64(self) -> (raw: u64) {
        proof {
            lemma2_to64();
        }
        self as u64
    }

    fn from_u64(raw: u64) -> (w: Option<u32>) {
        proof {
            lemma2_to64();
        }
        if raw <= u32::MAX as u64 {
            Some(raw as u32)
        } else {
            None
        }
    }

    fn from_bool(bit: bool) -> (w: u32) {
        if bit {
            <u32 as num_traits::One>::one()
        } else {
            <u32 as num_traits::Zero>::zero()
        }
    }
}

impl<T: Word> TryIntoBits<T> for u32 {
    open spec fn into_bits_spec(self) -> Option<T> {
        T::from_value(self as nat)
    }

    open spec fn into_bits_refusal() -> Seq<char> {
        "u32 value too large for target type"@
    }

    fn try_into_bits(self) -> (r: Result<T, &'static str>) {
        match T::from_u64(self as u64) {
            Some(bits) => Ok(bits),
            None => Err("u32 value too large for target type"),
        }
    }
}

impl<T: Word> TryFromBits<T> for u32 {
    open spec fn from_bits_spec(bits: T) -> Option<u32> {
        if bits.value() <= u32::MAX {
            Some(bits.value() as u32)
        } else {
            None
        }
    }

    open spec fn from_bits_refusal() -> Seq<char> {
        "bit pattern too large for target type u32"@
    }

    fn try_from_bits(bits: T) -> (r: Result<u32, &'static str>) {
        let raw = bits.to_u64();
        if raw <= u32::MAX as u64 {
            Ok(raw as u32)
        } else {
            Err("bit pattern too large for target type u32")
        }
    }
}

impl NumBytes for u64 {
    const NUM_BYTES: usize = 8;
}

impl Word for u64 {
    open spec fn value(self) -> nat {
        self as nat
    }

    open spec fn from_value(v: nat) -> Option<u64> {
        if v <= u64::MAX {
            Some(v as u64)
        } else {
            None
        }
    }

    fn to_u64(self) -> (raw: u64) {
        proof {
            lemma2_to64_rest();
        }
        self as u64
    }

    fn from_u64(raw: u64) -> (w: Option<u64>) {
        proof {
            lemma2_to64_rest();
        }
        if raw <= u64::MAX as u64 {
            Some(raw as u64)
        } else {
            None
        }
    }

    fn from_bool(bit: bool) -> (w: u64) {
        if bit {
            <u64 as num_traits::One>::one()
        } else {
            <u64 as num_traits::Zero>::zero()
        }
    }
}

impl<T: Word> TryIntoBits<T> for u64 {
    open spec fn into_bits_spec(self) -> Option<T> {
        T::from_value(self as nat)
    }

    open spec fn into_bits_refusal() -> Seq<char> {
        "u64 value too large for target type"@
    }

    fn try_into_bits(self) -> (r: Result<T, &'static str>) {
        match T::from_u64(self as u64) {
            Some(bits) => Ok(bits),
            None => Err("u64 value too large for target type"),
        }
    }
}

impl<T: Word> TryFromBits<T> for u64 {
    open spec fn from_bits_spec(bits: T) -> Option<u64> {
        if bits.value() <= u64::MAX {
            Some(bits.value() as u64)
        } else {
            None
        }
    }

    open spec fn from_bits_refusal() -> Seq<char> {
        "bit pattern too large for target type u64"@
    }

    fn try_from_bits(bits: T) -> (r: Result<u64, &'static str>) {
        let raw = bits.to_u64();
        if raw <= u64::MAX as u64 {
            Ok(raw as u64)
        } else {
            Err("bit pattern too large for target type u64")
        }
    }
}

impl NumBytes for bool {
    const NUM_BYTES: usize = 1;
}

impl<T: Word> TryIntoBits<T> for bool {
    open spec fn into_bits_spec(self) -> Option<T> {
        T::from_value(
            if self {
                1
            } else {
                0
            },
        )
    }

    /// Never given: a `bool` fits every word.
    open spec fn into_bits_refusal() -> Seq<char> {
        Seq::empty()
    }

    /// `true` becomes 1 and `false` becomes 0; this never fails.
    fn try_into_bits(self) -> (r: Result<T, &'static str>) {
        Ok(T::from_bool(self))
    }
}

impl<T: Word> TryFromBits<T> for bool {
    open spec fn from_bits_spec(bits: T) -> Option<bool> {
        if bits.value() == 1 {
            Some(true)
        } else if bits.value() == 0 {
            Some(false)
        } else {
            None
        }
    }

    /// 1 becomes `true` and 0 becomes `false`; every other pattern is refused.
    open spec fn from_bits_refusal() -> Seq<char> {
        "bit pattern too large for target type bool"@
    }

    fn try_from_bits(bits: T) -> (r: Result<bool, &'static str>) {
        let raw = bits.to_u64();
        if raw == T::from_bool(true).to_u64() {
            Ok(true)
        } else if raw == T::from_bool(false).to_u64() {
            Ok(false)
        } else {
            Err("bit pattern too large for target type bool")
        }
    }
}

} // verus!
