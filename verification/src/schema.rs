//! Field descriptors and the register schema built from them.

use crate::value::{Value, ValueAdapter};
use crate::width::WordWidth;
use vstd::prelude::*;

verus! {

/// What went wrong while a schema was built, a word encoded or a word decoded.
/// Every error names the field at which it arose.
#[derive(Clone, Debug, PartialEq, Eq)]
pub enum CodecError {
    /// The field's bit range reaches beyond the word.
    BitRangeOutOfBounds { field_name: String },
    /// The value's raw bits need more bits than the field's range has.
    ValueExceedsFieldWidth { field_name: String },
    /// A number does not fit the width it is converted to.
    CrossWidthOverflow { field_name: String },
    /// The raw bits of a boolean field are neither 0 nor 1.
    InvalidBooleanBits { field_name: String },
    /// The raw bits of an enumerated field match no declared variant.
    InvalidDiscriminant { field_name: String },
}

/// One field of a register: its name, its inclusive bit range and its adapter.
#[derive(Clone, Debug, PartialEq, Eq)]
pub struct FieldDescriptor {
    /// The field's name.
    pub name: String,
    /// The first bit of the range; bit 0 is the least significant.
    pub bit_start: u32,
    /// The last bit of the range.
    pub bit_end: u32,
    /// How the field's value turns into raw bits and back.
    pub adapter: ValueAdapter,
}

/// A value together with the name of the field it belongs to.
#[derive(Clone, Debug, PartialEq, Eq)]
pub struct FieldValue {
    /// The field's name.
    pub name: String,
    /// The field's value.
    pub value: Value,
}

/// The layout of a register: the width of its word and its fields in order.
/// Fields may overlap.
#[derive(Clone, Debug, PartialEq, Eq)]
pub struct RegisterSchema {
    /// The width of the word.
    pub word_width: WordWidth,
    /// The fields, in the order in which they are encoded and decoded.
    pub fields: Vec<FieldDescriptor>,
}

impl FieldDescriptor {
    /// The range is not empty: it starts no later than it ends.
    pub open spec fn wf(&self) -> bool {
        self.bit_start <= self.bit_end
    }

    /// The range lies within a word of the given width.
    pub open spec fn fits(&self, width: WordWidth) -> bool {
        self.bit_start <= self.bit_end < width.spec_bits()
    }

    /// The number of bits of the range: `bit_end - bit_start + 1`.
    pub open spec fn spec_bit_count(&self) -> nat {
        (self.bit_end - self.bit_start + 1) as nat
    }

    /// Whether this field's range and the other's have no bit in common.
    pub open spec fn disjoint_from(&self, other: FieldDescriptor) -> bool {
        self.bit_end < other.bit_start || other.bit_end < self.bit_start
    }

    /// A descriptor of the range `bit_start..=bit_end`, or `None` where the
    /// range would be empty.
    pub fn new(name: String, bit_start: u32, bit_end: u32, adapter: ValueAdapter) -> (field:
        Option<FieldDescriptor>)
        ensures
            field is Some <==> bit_start <= bit_end,
            field matches Some(f) ==> f.wf() && f == (FieldDescriptor {
                name,
                bit_start,
                bit_end,
                adapter,
            }),
    {
        if bit_start <= bit_end {
            Some(FieldDescriptor { name, bit_start, bit_end, adapter })
        } else {
            None
        }
    }

    /// The number of bits of the range.
    pub fn bit_count(&self) -> (count: u64)
        requires
            self.wf(),
        ensures
            count == self.spec_bit_count(),
            count >= 1,
    {
        (self.bit_end - self.bit_start) as u64 + 1
    }
}

/// Whether entry `i` of `values` exists and is for the field called `name`.
pub open spec fn named_at(values: Seq<FieldValue>, name: Seq<char>, i: int) -> bool {
    0 <= i < values.len() && values[i].name@ == name
}

/// Whether `i` is the first entry of `values` for the field called `name`.
pub open spec fn first_named(values: Seq<FieldValue>, name: Seq<char>, i: int) -> bool {
    named_at(values, name, i) && forall|j: int| 0 <= j < i ==> !named_at(values, name, j)
}

/// The value that `values` supplies for the field called `name`: that of the
/// first entry with this name, or `None` where there is no such entry.
pub open spec fn value_of(values: Seq<FieldValue>, name: Seq<char>) -> Option<Value> {
    if exists|i: int| named_at(values, name, i) {
        Some(values[choose|i: int| first_named(values, name, i)].value)
    } else {
        None
    }
}

/// The first entry for a name is the one that `value_of` reads.
pub proof fn lemma_first_named_is_value_of(values: Seq<FieldValue>, name: Seq<char>, i: int)
    requires
        first_named(values, name, i),
    ensures
        value_of(values, name) == Some(values[i].value),
{
    assert(named_at(values, name, i));
    let chosen = choose|k: int| first_named(values, name, k);
    assert(first_named(values, name, chosen));
    if chosen < i {
        assert(!named_at(values, name, chosen));
    }
    if i < chosen {
        assert(!named_at(values, name, i));
    }
}

/// Looks up the value supplied for the field called `name`.
pub fn find_value(values: &Vec<FieldValue>, name: &String) -> (found: Option<Value>)
    ensures
        found == value_of(values@, name@),
        found is Some <==> exists|i: int| named_at(values@, name@, i),
{
    let mut i: usize = 0;
    while i < values.len()
        invariant
            i <= values@.len(),
            forall|j: int| 0 <= j < i ==> !named_at(values@, name@, j),
        decreases values@.len() - i,
    {
        if values[i].name == *name {
            proof {
                assert(named_at(values@, name@, i as int));
                lemma_first_named_is_value_of(values@, name@, i as int);
            }
            return Some(values[i].value);
        }
        i += 1;
    }
    None
}

impl RegisterSchema {
    /// Every field's range is non-empty and lies within the word.
    pub open spec fn wf(&self) -> bool {
        forall|i: int| 0 <= i < self.fields@.len() ==> (#[trigger] self.fields@[i]).fits(
            self.word_width,
        )
    }

    /// No enumeration table of the schema holds a discriminant twice.
    pub open spec fn distinct_discriminants(&self) -> bool {
        forall|i: int| 0 <= i < self.fields@.len() ==> (#[trigger] self.fields@[i]).adapter.wf()
    }

    /// No two fields have the same name.
    pub open spec fn distinct_names(&self) -> bool {
        forall|i: int, j: int|
            0 <= i < j < self.fields@.len() ==> self.fields@[i].name@ != self.fields@[j].name@
    }

    /// No two fields have a bit in common.
    pub open spec fn non_overlapping(&self) -> bool {
        forall|i: int, j: int|
            0 <= i < self.fields@.len() && 0 <= j < self.fields@.len() && i != j
                ==> self.fields@[i].disjoint_from(self.fields@[j])
    }

    /// `values` supplies, for every field, a value of the kind that the
    /// field's adapter converts.
    pub open spec fn accepts(&self, values: Seq<FieldValue>) -> bool {
        forall|i: int|
            0 <= i < self.fields@.len() ==> (value_of(
                values,
                (#[trigger] self.fields@[i]).name@,
            ) matches Some(v) && self.fields@[i].adapter.admits(v))
    }

    /// Whether field `k` is the first whose range reaches beyond a word of
    /// `width` bits.
    pub open spec fn first_out_of_bounds(
        fields: Seq<FieldDescriptor>,
        width: WordWidth,
        k: int,
    ) -> bool {
        &&& 0 <= k < fields.len()
        &&& fields[k].bit_end >= width.spec_bits()
        &&& forall|j: int| 0 <= j < k ==> fields[j].bit_end < width.spec_bits()
    }

    /// Builds the schema of a word of `word_width` bits with the given fields.
    ///
    /// Fails with `BitRangeOutOfBounds`, naming the first offending field,
    /// where a field's last bit is not below the word's width. Overlap between
    /// fields is not looked for.
    pub fn build(word_width: WordWidth, fields: Vec<FieldDescriptor>) -> (r: Result<
        RegisterSchema,
        CodecError,
    >)
        ensures
            r is Ok <==> forall|i: int|
                0 <= i < fields@.len() ==> fields@[i].bit_end < word_width.spec_bits(),
            r matches Ok(schema) ==> schema.word_width == word_width && schema.fields == fields,
            r matches Ok(schema) ==> ((forall|i: int|
                0 <= i < fields@.len() ==> (#[trigger] fields@[i]).wf()) ==> schema.wf()),
            r matches Err(e) ==> exists|k: int|
                Self::first_out_of_bounds(fields@, word_width, k) && e == (
                CodecError::BitRangeOutOfBounds { field_name: fields@[k].name }),
    {
        let bits = word_width.bits();
        let mut i: usize = 0;
        while i < fields.len()
            invariant
                i <= fields@.len(),
                bits == word_width.spec_bits(),
                forall|j: int| 0 <= j < i ==> fields@[j].bit_end < bits,
            decreases fields@.len() - i,
        {
            if fields[i].bit_end >= bits {
                assert(Self::first_out_of_bounds(fields@, word_width, i as int));
                return Err(CodecError::BitRangeOutOfBounds { field_name: fields[i].name.clone() });
            }
            i += 1;
        }
        Ok(RegisterSchema { word_width, fields })
    }

    /// Whether every field's range is non-empty and lies within the word.
    pub fn is_well_formed(&self) -> (b: bool)
        ensures
            b == self.wf(),
    {
        let bits = self.word_width.bits();
        let mut i: usize = 0;
        while i < self.fields.len()
            invariant
                i <= self.fields@.len(),
                bits == self.word_width.spec_bits(),
                forall|j: int| 0 <= j < i ==> (#[trigger] self.fields@[j]).fits(self.word_width),
            decreases self.fields@.len() - i,
        {
            let field = &self.fields[i];
            if field.bit_start > field.bit_end || field.bit_end >= bits {
                assert(!self.fields@[i as int].fits(self.word_width));
                return false;
            }
            i += 1;
        }
        true
    }

    /// Whether `values` supplies, for every field, a value of the kind that
    /// the field's adapter converts.
    pub fn is_accepted(&self, values: &Vec<FieldValue>) -> (b: bool)
        ensures
            b == self.accepts(values@),
    {
        let mut i: usize = 0;
        while i < self.fields.len()
            invariant
                i <= self.fields@.len(),
                forall|j: int|
                    0 <= j < i ==> (value_of(
                        values@,
                        (#[trigger] self.fields@[j]).name@,
                    ) matches Some(v) && self.fields@[j].adapter.admits(v)),
            decreases self.fields@.len() - i,
        {
            let field = &self.fields[i];
            match find_value(values, &field.name) {
                Some(value) => {
                    if !field.adapter.accepts(&value) {
                        return false;
                    }
                },
                None => {
                    return false;
                },
            }
            i += 1;
        }
        true
    }
}

} // verus!
