//! Field values and the adapters that turn them into raw bits and back.

use crate::traits::{TryFromBits, TryIntoBits, Word};
use crate::width::WordWidth;
use vstd::prelude::*;

verus! {

/// A value that a field can hold.
#[derive(Clone, Copy, Debug, PartialEq, Eq, Structural)]
pub enum Value {
    /// True or false.
    Bool(bool),
    /// An unsigned integer whose natural form has 8 bits.
    U8(u8),
    /// An unsigned integer whose natural form has 16 bits.
    U16(u16),
    /// An unsigned integer whose natural form has 32 bits.
    U32(u32),
    /// An unsigned integer whose natural form has 64 bits.
    U64(u64),
    /// An enumerated symbol, named by its position in the field's table of
    /// variants.
    Symbol(usize),
}

/// Why an adapter refused a value or a bit pattern.
#[derive(Clone, Copy, Debug, PartialEq, Eq, Structural)]
pub enum AdapterError {
    /// A number does not fit the width it is converted to.
    CrossWidthOverflow,
    /// The raw bits of a boolean are neither 0 nor 1.
    InvalidBooleanBits,
    /// The raw bits match no declared variant.
    InvalidDiscriminant,
}

/// One variant of an enumeration: a symbol and the integer that stands for it.
#[derive(Clone, Debug, PartialEq, Eq)]
pub struct EnumVariant {
    /// The symbol's name.
    pub name: String,
    /// The integer that the symbol is encoded as.
    pub discriminant: u64,
}

/// The variants of an enumeration, in declaration order. The discriminants
/// need not be contiguous.
#[derive(Clone, Debug, PartialEq, Eq)]
pub struct EnumTable {
    /// The variants, in declaration order.
    pub variants: Vec<EnumVariant>,
}

/// How a field's value is turned into raw bits and back.
#[derive(Clone, Debug, PartialEq, Eq)]
pub enum ValueAdapter {
    /// A boolean: `true` is 1 and `false` is 0.
    Bool,
    /// An unsigned integer whose natural form has the given width.
    UInt(WordWidth),
    /// An enumerated symbol with the given table of variants.
    Enum(EnumTable),
}

impl EnumTable {
    /// Whether variant `i` exists and has discriminant `raw`.
    pub open spec fn matches_at(&self, raw: u64, i: int) -> bool {
        0 <= i < self.variants@.len() && self.variants@[i].discriminant == raw
    }

    /// Whether some variant has discriminant `raw`.
    pub open spec fn declares(&self, raw: u64) -> bool {
        exists|i: int| self.matches_at(raw, i)
    }

    /// Whether `i` is the first variant with discriminant `raw`.
    pub open spec fn first_match(&self, raw: u64, i: int) -> bool {
        self.matches_at(raw, i) && forall|j: int| 0 <= j < i ==> !self.matches_at(raw, j)
    }

    /// The position of the first variant with discriminant `raw`, or `None`
    /// where no variant has it.
    pub open spec fn position(&self, raw: u64) -> Option<usize> {
        if self.declares(raw) {
            Some((choose|i: int| self.first_match(raw, i)) as usize)
        } else {
            None
        }
    }

    /// No two variants share a discriminant.
    pub open spec fn distinct(&self) -> bool {
        forall|i: int, j: int|
            0 <= i < j < self.variants@.len() ==> self.variants@[i].discriminant
                != self.variants@[j].discriminant
    }

    /// The table of the given variants, or `None` where two of them share a
    /// discriminant.
    pub fn new(variants: Vec<EnumVariant>) -> (table: Option<EnumTable>)
        ensures
            table is Some <==> (EnumTable { variants }).distinct(),
            table matches Some(t) ==> t.variants == variants && t.distinct(),
    {
        let table = EnumTable { variants };
        if table.is_distinct() {
            Some(table)
        } else {
            None
        }
    }

    /// Looks `raw` up among the discriminants: the position of the first
    /// variant that has it, or `None` where none has.
    pub fn lookup(&self, raw: u64) -> (found: Option<usize>)
        ensures
            found == self.position(raw),
            found is Some <==> self.declares(raw),
            found matches Some(i) ==> self.first_match(raw, i as int),
    {
        let mut i: usize = 0;
        while i < self.variants.len()
            invariant
                i <= self.variants@.len(),
                forall|j: int| 0 <= j < i ==> !self.matches_at(raw, j),
            decreases self.variants@.len() - i,
        {
            if self.variants[i].discriminant == raw {
                proof {
                    self.lemma_first_match_is_position(raw, i as int);
                }
                return Some(i);
            }
            i += 1;
        }
        None
    }

    /// There is at most one first match, and `position` names it.
    pub proof fn lemma_first_match_is_position(&self, raw: u64, i: int)
        requires
            self.first_match(raw, i),
        ensures
            self.declares(raw),
            self.position(raw) == Some(i as usize),
    {
        assert(self.matches_at(raw, i));
        let chosen = choose|k: int| self.first_match(raw, k);
        assert(self.first_match(raw, chosen));
        if chosen < i {
            assert(!self.matches_at(raw, chosen));
        }
        if i < chosen {
            assert(!self.matches_at(raw, i));
        }
    }

    /// In a table without repeated discriminants, the discriminant of variant
    /// `i` is found at position `i`.
    pub proof fn lemma_distinct_position(&self, i: int)
        requires
            self.distinct(),
            0 <= i < self.variants@.len(),
        ensures
            self.position(self.variants@[i].discriminant) == Some(i as usize),
    {
        let raw = self.variants@[i].discriminant;
        assert(self.matches_at(raw, i));
        assert(self.first_match(raw, i));
        self.lemma_first_match_is_position(raw, i);
    }

    /// Whether no two variants share a discriminant.
    pub fn is_distinct(&self) -> (b: bool)
        ensures
            b == self.distinct(),
    {
        let n = self.variants.len();
        let mut j: usize = 0;
        while j < n
            invariant
                n == self.variants@.len(),
                j <= n,
                forall|a: int, b: int|
                    0 <= a < b < j ==> self.variants@[a].discriminant
                        != self.variants@[b].discriminant,
            decreases n - j,
        {
            let mut i: usize = 0;
            while i < j
                invariant
                    n == self.variants@.len(),
                    i <= j < n,
                    forall|a: int|
                        0 <= a < i ==> self.variants@[a].discriminant
                            != self.variants@[j as int].discriminant,
                decreases j - i,
            {
                if self.variants[i].discriminant == self.variants[j].discriminant {
                    return false;
                }
                i += 1;
            }
            j += 1;
        }
        true
    }
}

/// A number that fits a word of `width` bits, or the overflow error.
pub open spec fn narrowed(raw: u64, width: WordWidth) -> Result<u64, AdapterError> {
    if raw <= width.spec_max_value() {
        Ok(raw)
    } else {
        Err(AdapterError::CrossWidthOverflow)
    }
}

/// Converts `value` to the bit pattern of a word of the given width, through
/// the value type's own conversion to that word type.
fn into_word<V>(value: V, width: WordWidth) -> (r: Result<u64, AdapterError>) where
    V: TryIntoBits<u8> + TryIntoBits<u16> + TryIntoBits<u32> + TryIntoBits<u64>,

    ensures
        r == match width {
            WordWidth::W8 => match TryIntoBits::<u8>::into_bits_spec(value) {
                Some(bits) => Ok(bits as u64),
                None => Err(AdapterError::CrossWidthOverflow),
            },
            WordWidth::W16 => match TryIntoBits::<u16>::into_bits_spec(value) {
                Some(bits) => Ok(bits as u64),
                None => Err(AdapterError::CrossWidthOverflow),
            },
            WordWidth::W32 => match TryIntoBits::<u32>::into_bits_spec(value) {
                Some(bits) => Ok(bits as u64),
                None => Err(AdapterError::CrossWidthOverflow),
            },
            WordWidth::W64 => match TryIntoBits::<u64>::into_bits_spec(value) {
                Some(bits) => Ok(bits),
                None => Err(AdapterError::CrossWidthOverflow),
            },
        },
{
    match width {
        WordWidth::W8 => match TryIntoBits::<u8>::try_into_bits(value) {
            Ok(bits) => Ok(bits.to_u64()),
            Err(_) => Err(AdapterError::CrossWidthOverflow),
        },
        WordWidth::W16 => match TryIntoBits::<u16>::try_into_bits(value) {
            Ok(bits) => Ok(bits.to_u64()),
            Err(_) => Err(AdapterError::CrossWidthOverflow),
        },
        WordWidth::W32 => match TryIntoBits::<u32>::try_into_bits(value) {
            Ok(bits) => Ok(bits.to_u64()),
            Err(_) => Err(AdapterError::CrossWidthOverflow),
        },
        WordWidth::W64 => match TryIntoBits::<u64>::try_into_bits(value) {
            Ok(bits) => Ok(bits),
            Err(_) => Err(AdapterError::CrossWidthOverflow),
        },
    }
}

impl ValueAdapter {
    /// Whether `value` is of the kind that this adapter converts: a boolean
    /// for `Bool`, an integer of the same natural width for `UInt`, the
    /// position of a variant of the table for `Enum`.
    pub open spec fn admits(&self, value: Value) -> bool {
        match (*self, value) {
            (ValueAdapter::Bool, Value::Bool(_)) => true,
            (ValueAdapter::UInt(WordWidth::W8), Value::U8(_)) => true,
            (ValueAdapter::UInt(WordWidth::W16), Value::U16(_)) => true,
            (ValueAdapter::UInt(WordWidth::W32), Value::U32(_)) => true,
            (ValueAdapter::UInt(WordWidth::W64), Value::U64(_)) => true,
            (ValueAdapter::Enum(table), Value::Symbol(i)) => i < table.variants@.len(),
            _ => false,
        }
    }

    /// Enumeration tables hold no discriminant twice.
    pub open spec fn wf(&self) -> bool {
        self matches ValueAdapter::Enum(table) ==> table.distinct()
    }

    /// The raw bits of `value` in a word of the given width.
    ///
    /// * a boolean is 1 or 0;
    /// * an integer is itself, and is refused with `CrossWidthOverflow` where
    ///   it exceeds the largest number of the word;
    /// * a symbol is its discriminant.
    pub open spec fn to_bits_spec(&self, value: Value, width: WordWidth) -> Result<
        u64,
        AdapterError,
    > {
        match value {
            Value::Bool(b) => Ok(
                if b {
                    1u64
                } else {
                    0u64
                },
            ),
            Value::U8(v) => narrowed(v as u64, width),
            Value::U16(v) => narrowed(v as u64, width),
            Value::U32(v) => narrowed(v as u64, width),
            Value::U64(v) => narrowed(v, width),
            Value::Symbol(i) => Ok(self->Enum_0.variants@[i as int].discriminant),
        }
    }

    /// The value that the raw bits `raw` stand for.
    ///
    /// * `Bool`: 0 is `false`, 1 is `true`, anything else is refused with
    ///   `InvalidBooleanBits`;
    /// * `UInt`: `raw` itself where it fits the natural width, else
    ///   `CrossWidthOverflow`;
    /// * `Enum`: the first variant whose discriminant is `raw`, else
    ///   `InvalidDiscriminant`.
    pub open spec fn from_bits_spec(&self, raw: u64) -> Result<Value, AdapterError> {
        match *self {
            ValueAdapter::Bool => if raw == 0 {
                Ok(Value::Bool(false))
            } else if raw == 1 {
                Ok(Value::Bool(true))
            } else {
                Err(AdapterError::InvalidBooleanBits)
            },
            ValueAdapter::UInt(WordWidth::W8) => if raw <= u8::MAX {
                Ok(Value::U8(raw as u8))
            } else {
                Err(AdapterError::CrossWidthOverflow)
            },
            ValueAdapter::UInt(WordWidth::W16) => if raw <= u16::MAX {
                Ok(Value::U16(raw as u16))
            } else {
                Err(AdapterError::CrossWidthOverflow)
            },
            ValueAdapter::UInt(WordWidth::W32) => if raw <= u32::MAX {
                Ok(Value::U32(raw as u32))
            } else {
                Err(AdapterError::CrossWidthOverflow)
            },
            ValueAdapter::UInt(WordWidth::W64) => Ok(Value::U64(raw)),
            ValueAdapter::Enum(table) => match table.position(raw) {
                Some(i) => Ok(Value::Symbol(i)),
                None => Err(AdapterError::InvalidDiscriminant),
            },
        }
    }

    /// Whether `value` is of the kind that this adapter converts.
    pub fn accepts(&self, value: &Value) -> (b: bool)
        ensures
            b == self.admits(*value),
    {
        match self {
            ValueAdapter::Bool => match value {
                Value::Bool(_) => true,
                _ => false,
            },
            ValueAdapter::UInt(width) => match (width, value) {
                (WordWidth::W8, Value::U8(_)) => true,
                (WordWidth::W16, Value::U16(_)) => true,
                (WordWidth::W32, Value::U32(_)) => true,
                (WordWidth::W64, Value::U64(_)) => true,
                _ => false,
            },
            ValueAdapter::Enum(table) => match value {
                Value::Symbol(i) => *i < table.variants.len(),
                _ => false,
            },
        }
    }

    /// Converts `value` to its raw bits in a word of the given width.
    pub fn to_bits(&self, value: &Value, width: WordWidth) -> (r: Result<u64, AdapterError>)
        requires
            self.admits(*value),
        ensures
            r == self.to_bits_spec(*value, width),
            r matches Ok(raw) ==> raw <= width.spec_max_value() || value is Symbol,
            value is Bool ==> r is Ok,
            value is Symbol ==> r is Ok,
    {
        match value {
            Value::Bool(b) => into_word(*b, width),
            Value::U8(v) => into_word(*v, width),
            Value::U16(v) => into_word(*v, width),
            Value::U32(v) => into_word(*v, width),
            Value::U64(v) => into_word(*v, width),
            Value::Symbol(i) => match self {
                ValueAdapter::Enum(table) => Ok(table.variants[*i].discriminant),
                // not reached: only an enumeration admits a symbol
                _ => Ok(0),
            },
        }
    }

    /// Converts raw bits to the value they stand for.
    pub fn from_bits(&self, raw: u64) -> (r: Result<Value, AdapterError>)
        ensures
            r == self.from_bits_spec(raw),
            r matches Ok(value) ==> self.admits(value),
            self is Bool ==> (r is Ok <==> raw <= 1),
            self is Bool && r is Err ==> r == Err::<Value, AdapterError>(
                AdapterError::InvalidBooleanBits,
            ),
            self matches ValueAdapter::Enum(table) ==> (r is Ok <==> table.declares(raw)),
            self matches ValueAdapter::Enum(table) ==> (r matches Ok(value) ==> value is Symbol
                && table.first_match(raw, value->Symbol_0 as int)),
            self is Enum && r is Err ==> r == Err::<Value, AdapterError>(
                AdapterError::InvalidDiscriminant,
            ),
    {
        match self {
            ValueAdapter::Bool => match <bool as TryFromBits<u64>>::try_from_bits(raw) {
                Ok(b) => Ok(Value::Bool(b)),
                Err(_) => Err(AdapterError::InvalidBooleanBits),
            },
            ValueAdapter::UInt(WordWidth::W8) => match <u8 as TryFromBits<u64>>::try_from_bits(
                raw,
            ) {
                Ok(v) => Ok(Value::U8(v)),
                Err(_) => Err(AdapterError::CrossWidthOverflow),
            },
            ValueAdapter::UInt(WordWidth::W16) => match <u16 as TryFromBits<u64>>::try_from_bits(
                raw,
            ) {
                Ok(v) => Ok(Value::U16(v)),
                Err(_) => Err(AdapterError::CrossWidthOverflow),
            },
            ValueAdapter::UInt(WordWidth::W32) => match <u32 as TryFromBits<u64>>::try_from_bits(
                raw,
            ) {
                Ok(v) => Ok(Value::U32(v)),
                Err(_) => Err(AdapterError::CrossWidthOverflow),
            },
            ValueAdapter::UInt(WordWidth::W64) => match <u64 as TryFromBits<u64>>::try_from_bits(
                raw,
            ) {
                Ok(v) => Ok(Value::U64(v)),
                Err(_) => Err(AdapterError::CrossWidthOverflow),
            },
            ValueAdapter::Enum(table) => match table.lookup(raw) {
                Some(i) => Ok(Value::Symbol(i)),
                None => Err(AdapterError::InvalidDiscriminant),
            },
        }
    }
}

} // verus!
