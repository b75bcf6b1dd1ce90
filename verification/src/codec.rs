//! Encoding field values into a word and decoding a word into field values.

use crate::bits::{
    extract_bits,
    lemma_low_mask_is_max_representable,
    lemma_or_fits_word,
    lemma_place_fits_word,
    low_mask,
    mask_of,
    max_representable,
    place_bits,
};
use crate::schema::{
    find_value,
    value_of,
    CodecError,
    FieldDescriptor,
    FieldValue,
    RegisterSchema,
};
use crate::value::{AdapterError, Value};
use crate::width::WordWidth;
use vstd::prelude::*;

verus! {

/// The adapter's error as an error of the field called `field_name`.
pub open spec fn tagged(e: AdapterError, field_name: String) -> CodecError {
    match e {
        AdapterError::CrossWidthOverflow => CodecError::CrossWidthOverflow { field_name },
        AdapterError::InvalidBooleanBits => CodecError::InvalidBooleanBits { field_name },
        AdapterError::InvalidDiscriminant => CodecError::InvalidDiscriminant { field_name },
    }
}

/// The raw bits that `value` has in `field`, before they are moved to the
/// field's range.
///
/// The adapter converts the value; its errors carry the field's name. Raw bits
/// above `2^bit_count - 1` are then refused with `ValueExceedsFieldWidth`,
/// whatever kind of value they come from.
pub open spec fn field_raw(field: FieldDescriptor, value: Value, width: WordWidth) -> Result<
    u64,
    CodecError,
> {
    match field.adapter.to_bits_spec(value, width) {
        Err(e) => Err(tagged(e, field.name)),
        Ok(raw) => if raw > max_representable(field.spec_bit_count()) {
            Err(CodecError::ValueExceedsFieldWidth { field_name: field.name })
        } else {
            Ok(raw)
        },
    }
}

/// The word that holds `value` in the range of `field` and nothing else.
pub open spec fn field_word(field: FieldDescriptor, value: Value, width: WordWidth) -> Result<
    u64,
    CodecError,
> {
    match field_raw(field, value, width) {
        Err(e) => Err(e),
        Ok(raw) => Ok(place_bits(raw, field.bit_start, field.spec_bit_count() as u32)),
    }
}

/// The word of field `i` of the schema, for the value that `values` supplies
/// under the field's name.
pub open spec fn nth_word(schema: RegisterSchema, values: Seq<FieldValue>, i: int) -> Result<
    u64,
    CodecError,
> {
    field_word(
        schema.fields@[i],
        value_of_field(schema, values, i),
        schema.word_width,
    )
}

/// The value that `values` supplies for field `i` of the schema.
pub open spec fn value_of_field(schema: RegisterSchema, values: Seq<FieldValue>, i: int) -> Value {
    value_of(values, schema.fields@[i].name@).unwrap()
}

/// The result of encoding the first `n` fields: the OR of their words, or the
/// error of the first field that fails.
pub open spec fn encoded_prefix(schema: RegisterSchema, values: Seq<FieldValue>, n: nat) -> Result<
    u64,
    CodecError,
>
    decreases n,
{
    if n == 0 {
        Ok(0)
    } else {
        match encoded_prefix(schema, values, (n - 1) as nat) {
            Err(e) => Err(e),
            Ok(acc) => match nth_word(schema, values, n - 1) {
                Err(e) => Err(e),
                Ok(placed) => Ok(acc | placed),
            },
        }
    }
}

/// The result of encoding `values` with `schema`.
pub open spec fn encoded(schema: RegisterSchema, values: Seq<FieldValue>) -> Result<
    u64,
    CodecError,
> {
    encoded_prefix(schema, values, schema.fields@.len())
}

/// The value that `field` has in `word`: the adapter's reading of the bits of
/// the field's range, its errors carrying the field's name.
pub open spec fn field_value(field: FieldDescriptor, word: u64) -> Result<Value, CodecError> {
    match field.adapter.from_bits_spec(
        extract_bits(word, field.bit_start, field.spec_bit_count() as u32),
    ) {
        Err(e) => Err(tagged(e, field.name)),
        Ok(value) => Ok(value),
    }
}

/// The result of decoding the first `n` fields: their values under their
/// names, in schema order, or the error of the first field that fails.
pub open spec fn decoded_prefix(schema: RegisterSchema, word: u64, n: nat) -> Result<
    Seq<FieldValue>,
    CodecError,
>
    decreases n,
{
    if n == 0 {
        Ok(Seq::empty())
    } else {
        match decoded_prefix(schema, word, (n - 1) as nat) {
            Err(e) => Err(e),
            Ok(values) => match field_value(schema.fields@[n - 1], word) {
                Err(e) => Err(e),
                Ok(value) => Ok(
                    values.push(FieldValue { name: schema.fields@[n - 1].name, value }),
                ),
            },
        }
    }
}

/// The result of decoding `word` with `schema`.
pub open spec fn decoded(schema: RegisterSchema, word: u64) -> Result<Seq<FieldValue>, CodecError> {
    decoded_prefix(schema, word, schema.fields@.len())
}

/// Once a field has failed, the fields after it are not looked at.
pub proof fn lemma_encoded_error_stays(
    schema: RegisterSchema,
    values: Seq<FieldValue>,
    k: nat,
    n: nat,
)
    requires
        k <= n,
        encoded_prefix(schema, values, k) is Err,
    ensures
        encoded_prefix(schema, values, n) == encoded_prefix(schema, values, k),
    decreases n,
{
    if k < n {
        lemma_encoded_error_stays(schema, values, k, (n - 1) as nat);
    }
}

/// Once a field has failed, the fields after it are not looked at.
pub proof fn lemma_decoded_error_stays(schema: RegisterSchema, word: u64, k: nat, n: nat)
    requires
        k <= n,
        decoded_prefix(schema, word, k) is Err,
    ensures
        decoded_prefix(schema, word, n) == decoded_prefix(schema, word, k),
    decreases n,
{
    if k < n {
        lemma_decoded_error_stays(schema, word, k, (n - 1) as nat);
    }
}

fn tag(e: AdapterError, field_name: &String) -> (r: CodecError)
    ensures
        r == tagged(e, *field_name),
{
    match e {
        AdapterError::CrossWidthOverflow => CodecError::CrossWidthOverflow {
            field_name: field_name.clone(),
        },
        AdapterError::InvalidBooleanBits => CodecError::InvalidBooleanBits {
            field_name: field_name.clone(),
        },
        AdapterError::InvalidDiscriminant => CodecError::InvalidDiscriminant {
            field_name: field_name.clone(),
        },
    }
}

/// The mask of a field of `bit_count` bits in a word of the given width. A
/// field as wide as the word takes the word's largest number, so that no shift
/// by the whole width is made.
fn field_mask(bit_count: u64, width: WordWidth) -> (mask: u64)
    requires
        1 <= bit_count <= width.spec_bits(),
    ensures
        mask == low_mask(bit_count as u32),
        mask == max_representable(bit_count as nat),
{
    proof {
        width.lemma_max_value();
        lemma_low_mask_is_max_representable(bit_count as u32);
    }
    if bit_count >= width.bits() as u64 {
        width.max_value()
    } else {
        mask_of(bit_count as u32)
    }
}

/// Encodes one field: converts `value` to raw bits, checks them against the
/// field's width and moves them to the field's range.
pub fn encode_field(field: &FieldDescriptor, value: &Value, width: WordWidth) -> (r: Result<
    u64,
    CodecError,
>)
    requires
        field.fits(width),
        field.adapter.admits(*value),
    ensures
        r == field_word(*field, *value, width),
        r matches Ok(placed) ==> placed <= width.spec_max_value(),
{
    let bit_count = field.bit_count();
    let raw = match field.adapter.to_bits(value, width) {
        Ok(raw) => raw,
        Err(e) => {
            return Err(tag(e, &field.name));
        },
    };
    let max = field_mask(bit_count, width);
    if raw > max {
        return Err(CodecError::ValueExceedsFieldWidth { field_name: field.name.clone() });
    }
    proof {
        width.lemma_max_value();
        lemma_place_fits_word(raw, field.bit_start, bit_count as u32, width.spec_bits());
    }
    Ok((raw & max) << field.bit_start)
}

/// Decodes one field: takes the bits of the field's range out of `word` and
/// has the adapter read them.
pub fn decode_field(field: &FieldDescriptor, word: u64, width: WordWidth) -> (r: Result<
    Value,
    CodecError,
>)
    requires
        field.fits(width),
    ensures
        r == field_value(*field, word),
        r matches Ok(value) ==> field.adapter.admits(value),
{
    let bit_count = field.bit_count();
    let mask = field_mask(bit_count, width);
    let raw = (word >> field.bit_start) & mask;
    match field.adapter.from_bits(raw) {
        Ok(value) => Ok(value),
        Err(e) => Err(tag(e, &field.name)),
    }
}

/// Packs `values` into a word as `schema` lays it out.
///
/// The fields are taken in schema order, each with the value supplied under
/// its name. The first field that fails ends the encoding with its error; no
/// partial word is returned.
pub fn encode(schema: &RegisterSchema, values: &Vec<FieldValue>) -> (r: Result<u64, CodecError>)
    requires
        schema.wf(),
        schema.accepts(values@),
    ensures
        r == encoded(*schema, values@),
        r matches Ok(word) ==> word <= schema.word_width.spec_max_value(),
{
    let mut acc: u64 = 0;
    let mut i: usize = 0;
    while i < schema.fields.len()
        invariant
            i <= schema.fields@.len(),
            schema.wf(),
            schema.accepts(values@),
            encoded_prefix(*schema, values@, i as nat) == Ok::<u64, CodecError>(acc),
            acc <= schema.word_width.spec_max_value(),
        decreases schema.fields@.len() - i,
    {
        let field = &schema.fields[i];
        let found = find_value(values, &field.name);
        assert(schema.fields@[i as int].fits(schema.word_width));
        let value = found.unwrap();
        match encode_field(field, &value, schema.word_width) {
            Ok(placed) => {
                proof {
                    schema.word_width.lemma_max_value();
                    lemma_or_fits_word(acc, placed, schema.word_width.spec_bits());
                }
                acc = acc | placed;
            },
            Err(e) => {
                proof {
                    lemma_encoded_error_stays(
                        *schema,
                        values@,
                        (i + 1) as nat,
                        schema.fields@.len(),
                    );
                }
                return Err(e);
            },
        }
        i += 1;
    }
    Ok(acc)
}

/// Unpacks `word` into the values of the fields of `schema`, in schema order,
/// each under its field's name.
///
/// The first field whose bits the adapter refuses ends the decoding with its
/// error; the fields after it are not decoded. Bits of `word` above the
/// schema's width are not read.
pub fn decode(schema: &RegisterSchema, word: u64) -> (r: Result<Vec<FieldValue>, CodecError>)
    requires
        schema.wf(),
    ensures
        match r {
            Ok(values) => decoded(*schema, word) == Ok::<Seq<FieldValue>, CodecError>(values@),
            Err(e) => decoded(*schema, word) == Err::<Seq<FieldValue>, CodecError>(e),
        },
{
    let mut values: Vec<FieldValue> = Vec::new();
    let mut i: usize = 0;
    while i < schema.fields.len()
        invariant
            i <= schema.fields@.len(),
            schema.wf(),
            decoded_prefix(*schema, word, i as nat) == Ok::<Seq<FieldValue>, CodecError>(values@),
        decreases schema.fields@.len() - i,
    {
        let field = &schema.fields[i];
        assert(schema.fields@[i as int].fits(schema.word_width));
        match decode_field(field, word, schema.word_width) {
            Ok(value) => {
                values.push(FieldValue { name: field.name.clone(), value });
            },
            Err(e) => {
                proof {
                    lemma_decoded_error_stays(*schema, word, (i + 1) as nat, schema.fields@.len());
                }
                return Err(e);
            },
        }
        i += 1;
    }
    Ok(values)
}

} // verus!
