//! What holds of the codec as a whole: the round trip through a word, the
//! range check, full-width fields, booleans and enumerations.

use crate::bits::{
    extract_bits,
    lemma_extract_of_disjoint_place,
    lemma_extract_of_or,
    lemma_extract_of_place,
    lemma_extract_of_zero,
    lemma_low_mask_is_max_representable,
    lemma_mask_keeps_small,
    low_mask,
    max_representable,
    place_bits,
};
use crate::codec::{
    decoded,
    decoded_prefix,
    encoded,
    encoded_prefix,
    field_raw,
    field_value,
    field_word,
    nth_word,
    value_of_field,
};
use crate::schema::{
    first_named,
    lemma_first_named_is_value_of,
    named_at,
    CodecError,
    FieldDescriptor,
    FieldValue,
    RegisterSchema,
};
use crate::value::{AdapterError, EnumTable, Value, ValueAdapter};
use crate::width::WordWidth;
use vstd::prelude::*;

verus! {

/// The raw bits of field `i` of the schema, for the value that `values`
/// supplies under the field's name.
pub open spec fn nth_raw(schema: RegisterSchema, values: Seq<FieldValue>, i: int) -> Result<
    u64,
    CodecError,
> {
    field_raw(schema.fields@[i], value_of_field(schema, values, i), schema.word_width)
}

/// The bits that field `j` puts into the range of field `i` are bits that the
/// value of field `i` has set itself.
pub open spec fn leaves_intact(
    schema: RegisterSchema,
    values: Seq<FieldValue>,
    j: int,
    i: int,
) -> bool {
    let target = schema.fields@[i];
    extract_bits(
        nth_word(schema, values, j).unwrap(),
        target.bit_start,
        target.spec_bit_count() as u32,
    ) | nth_raw(schema, values, i).unwrap() == nth_raw(schema, values, i).unwrap()
}

/// No field sets a bit in another field's range that the other field's value
/// has clear. This holds of every schema without overlap, and of an
/// overlapping one for the values that agree on the shared bits.
pub open spec fn no_interference(schema: RegisterSchema, values: Seq<FieldValue>) -> bool {
    forall|j: int, i: int|
        0 <= j < schema.fields@.len() && 0 <= i < schema.fields@.len() ==> #[trigger] leaves_intact(
            schema,
            values,
            j,
            i,
        )
}

/// The values that `values` supplies for the fields of the schema, each under
/// its field's name, in schema order.
pub open spec fn in_schema_order(schema: RegisterSchema, values: Seq<FieldValue>) -> Seq<
    FieldValue,
> {
    Seq::new(
        schema.fields@.len(),
        |i: int|
            FieldValue { name: schema.fields@[i].name, value: value_of_field(schema, values, i) },
    )
}

/// An adapter reads back what it wrote: the raw bits of a value stand for that
/// value.
pub proof fn lemma_adapter_round_trip(
    adapter: ValueAdapter,
    value: Value,
    width: WordWidth,
    raw: u64,
)
    requires
        adapter.wf(),
        adapter.admits(value),
        adapter.to_bits_spec(value, width) == Ok::<u64, AdapterError>(raw),
    ensures
        adapter.from_bits_spec(raw) == Ok::<Value, AdapterError>(value),
{
    match value {
        Value::Symbol(i) => {
            adapter->Enum_0.lemma_distinct_position(i as int);
        },
        _ => {},
    }
}

/// Two bit patterns that an adapter reads as the same value are the same.
pub proof fn lemma_adapter_reads_one_pattern(adapter: ValueAdapter, a: u64, b: u64)
    requires
        adapter.from_bits_spec(a) is Ok,
        adapter.from_bits_spec(a) == adapter.from_bits_spec(b),
    ensures
        a == b,
{
    match adapter {
        ValueAdapter::Enum(table) => {
            assert(table.variants@.len() == table.variants.len());
            assert(table.declares(a));
            assert(table.declares(b));
            assert(table.first_match(a, choose|k: int| table.first_match(a, k))) by {
                let w = choose|k: int| table.matches_at(a, k);
                lemma_first_exists(table, a, w);
            }
            assert(table.first_match(b, choose|k: int| table.first_match(b, k))) by {
                let w = choose|k: int| table.matches_at(b, k);
                lemma_first_exists(table, b, w);
            }
        },
        _ => {},
    }
}

/// Where some variant has the discriminant, some variant is the first to have
/// it.
proof fn lemma_first_exists(table: EnumTable, raw: u64, i: int)
    requires
        table.matches_at(raw, i),
    ensures
        exists|k: int| table.first_match(raw, k),
    decreases i,
{
    if forall|j: int| 0 <= j < i ==> !table.matches_at(raw, j) {
        assert(table.first_match(raw, i));
    } else {
        let j = choose|j: int| 0 <= j < i && table.matches_at(raw, j);
        lemma_first_exists(table, raw, j);
    }
}

/// Where the first `n` fields encode to a word, each of them encodes on its
/// own, and so does every shorter prefix.
pub proof fn lemma_encoded_ok_fields(
    schema: RegisterSchema,
    values: Seq<FieldValue>,
    n: nat,
    k: int,
)
    requires
        encoded_prefix(schema, values, n) is Ok,
        0 <= k < n,
    ensures
        nth_word(schema, values, k) is Ok,
        nth_raw(schema, values, k) is Ok,
        encoded_prefix(schema, values, k as nat) is Ok,
    decreases n,
{
    if k < n - 1 {
        lemma_encoded_ok_fields(schema, values, (n - 1) as nat, k);
    }
}

/// What the word of the first `n` fields holds in the range of field `i`: only
/// bits that the value of field `i` has set, and, once field `i` is among the
/// `n`, all of them.
proof fn lemma_prefix_holds_field(
    schema: RegisterSchema,
    values: Seq<FieldValue>,
    n: nat,
    i: int,
)
    requires
        schema.wf(),
        no_interference(schema, values),
        n <= schema.fields@.len(),
        0 <= i < schema.fields@.len(),
        encoded_prefix(schema, values, n) is Ok,
        nth_raw(schema, values, i) is Ok,
    ensures
        ({
            let acc = encoded_prefix(schema, values, n).unwrap();
            let field = schema.fields@[i];
            let got = extract_bits(acc, field.bit_start, field.spec_bit_count() as u32);
            let raw = nth_raw(schema, values, i).unwrap();
            &&& got | raw == raw
            &&& i < n ==> got == raw
        }),
    decreases n,
{
    let field = schema.fields@[i];
    let start = field.bit_start;
    let count = field.spec_bit_count() as u32;
    let raw = nth_raw(schema, values, i).unwrap();
    if n == 0 {
        lemma_extract_of_zero(start, count);
        assert(0u64 | raw == raw) by (bit_vector);
    } else {
        lemma_prefix_holds_field(schema, values, (n - 1) as nat, i);
        let before = encoded_prefix(schema, values, (n - 1) as nat).unwrap();
        let placed = nth_word(schema, values, n - 1).unwrap();
        let a = extract_bits(before, start, count);
        let b = extract_bits(placed, start, count);
        lemma_extract_of_or(before, placed, start, count);
        assert(leaves_intact(schema, values, n - 1, i));
        assert(b | raw == raw);
        assert((a | b) | raw == raw) by (bit_vector)
            requires
                a | raw == raw,
                b | raw == raw,
        ;
        if i < n - 1 {
            assert(a | b == raw) by (bit_vector)
                requires
                    a == raw,
                    b | raw == raw,
            ;
        } else if i == n - 1 {
            assert(schema.fields@[i].fits(schema.word_width));
            lemma_low_mask_is_max_representable(count);
            lemma_extract_of_place(raw, start, count);
            assert(b == raw);
            assert(a | b == raw) by (bit_vector)
                requires
                    b == raw,
                    a | raw == raw,
            ;
        }
    }
}

/// Where every one of the first `n` fields reads its supplied value out of
/// `word`, decoding the first `n` fields gives these values in schema order.
proof fn lemma_decoded_prefix_is_in_order(
    schema: RegisterSchema,
    values: Seq<FieldValue>,
    word: u64,
    n: nat,
)
    requires
        n <= schema.fields@.len(),
        forall|k: int|
            0 <= k < n ==> #[trigger] field_value(schema.fields@[k], word) == Ok::<
                Value,
                CodecError,
            >(value_of_field(schema, values, k)),
    ensures
        decoded_prefix(schema, word, n) == Ok::<Seq<FieldValue>, CodecError>(
            in_schema_order(schema, values).take(n as int),
        ),
    decreases n,
{
    let all = in_schema_order(schema, values);
    if n == 0 {
        assert(all.take(0) == Seq::<FieldValue>::empty());
    } else {
        lemma_decoded_prefix_is_in_order(schema, values, word, (n - 1) as nat);
        assert(field_value(schema.fields@[n - 1], word) == Ok::<Value, CodecError>(
            value_of_field(schema, values, n - 1),
        ));
        assert(all.take(n as int) == all.take(n - 1).push(all[n - 1]));
    }
}

/// Round trip. Where `values` encodes to `word` and no field disturbs
/// another, `word` decodes to the values that were supplied: for every field,
/// in schema order, the value given under its name.
pub proof fn lemma_round_trip(schema: RegisterSchema, values: Seq<FieldValue>, word: u64)
    requires
        schema.wf(),
        schema.distinct_discriminants(),
        schema.accepts(values),
        no_interference(schema, values),
        encoded(schema, values) == Ok::<u64, CodecError>(word),
    ensures
        decoded(schema, word) == Ok::<Seq<FieldValue>, CodecError>(
            in_schema_order(schema, values),
        ),
{
    let n = schema.fields@.len();
    assert forall|k: int| 0 <= k < n implies #[trigger] field_value(schema.fields@[k], word)
        == Ok::<Value, CodecError>(value_of_field(schema, values, k)) by {
        let field = schema.fields@[k];
        let value = value_of_field(schema, values, k);
        lemma_encoded_ok_fields(schema, values, n, k);
        lemma_prefix_holds_field(schema, values, n, k);
        let raw = nth_raw(schema, values, k).unwrap();
        assert(field.adapter.wf());
        assert(field.adapter.admits(value));
        lemma_adapter_round_trip(field.adapter, value, schema.word_width, raw);
    }
    lemma_decoded_prefix_is_in_order(schema, values, word, n);
    assert(in_schema_order(schema, values).take(n as int) == in_schema_order(schema, values));
}

/// Whether bit `b` of `word` is set.
pub open spec fn bit_is_set(word: u64, b: u32) -> bool {
    (word >> b) & 1 == 1
}

/// Whether field `k` is the first field that fails to encode, and fails with
/// `e`.
pub open spec fn first_encode_failure(
    schema: RegisterSchema,
    values: Seq<FieldValue>,
    k: int,
    e: CodecError,
) -> bool {
    &&& 0 <= k < schema.fields@.len()
    &&& nth_word(schema, values, k) == Err::<u64, CodecError>(e)
    &&& forall|j: int| 0 <= j < k ==> nth_word(schema, values, j) is Ok
}

/// Whether field `k` is the first field that fails to decode, and fails with
/// `e`.
pub open spec fn first_decode_failure(
    schema: RegisterSchema,
    word: u64,
    k: int,
    e: CodecError,
) -> bool {
    &&& 0 <= k < schema.fields@.len()
    &&& field_value(schema.fields@[k], word) == Err::<Value, CodecError>(e)
    &&& forall|j: int| 0 <= j < k ==> field_value(schema.fields@[j], word) is Ok
}

/// What the encoding of the first `n` fields is: an error where one of them
/// fails, namely that of the first to fail; else a word in which a bit is set
/// exactly where some field's word has it set.
proof fn lemma_encoded_prefix_explained(schema: RegisterSchema, values: Seq<FieldValue>, n: nat)
    requires
        n <= schema.fields@.len(),
    ensures
        encoded_prefix(schema, values, n) is Ok <==> forall|i: int|
            0 <= i < n ==> nth_word(schema, values, i) is Ok,
        encoded_prefix(schema, values, n) matches Err(e) ==> exists|k: int|
            k < n && first_encode_failure(schema, values, k, e),
        encoded_prefix(schema, values, n) matches Ok(word) ==> forall|b: u32|
            b < 64 ==> (#[trigger] bit_is_set(word, b) <==> exists|j: int|
                0 <= j < n && bit_is_set(nth_word(schema, values, j).unwrap(), b)),
    decreases n,
{
    if n == 0 {
        assert forall|b: u32| b < 64 implies !#[trigger] bit_is_set(0, b) by {
            assert((0u64 >> b) & 1 == 0) by (bit_vector);
        }
    } else {
        lemma_encoded_prefix_explained(schema, values, (n - 1) as nat);
        match encoded_prefix(schema, values, (n - 1) as nat) {
            Err(e) => {
                let k = choose|k: int| k < n - 1 && first_encode_failure(schema, values, k, e);
                assert(k < n && first_encode_failure(schema, values, k, e));
            },
            Ok(acc) => {
                match nth_word(schema, values, n - 1) {
                    Err(e) => {
                        assert(first_encode_failure(schema, values, n - 1, e));
                    },
                    Ok(placed) => {
                        let word = acc | placed;
                        assert forall|b: u32| b < 64 implies (#[trigger] bit_is_set(word, b)
                            <==> exists|j: int|
                            0 <= j < n && bit_is_set(nth_word(schema, values, j).unwrap(), b)) by {
                            assert(bit_is_set(acc | placed, b) <==> bit_is_set(acc, b)
                                || bit_is_set(placed, b)) by (bit_vector);
                            if bit_is_set(acc, b) {
                                let j = choose|j: int|
                                    0 <= j < n - 1 && bit_is_set(
                                        nth_word(schema, values, j).unwrap(),
                                        b,
                                    );
                                assert(0 <= j < n && bit_is_set(
                                    nth_word(schema, values, j).unwrap(),
                                    b,
                                ));
                            }
                            if bit_is_set(placed, b) {
                                assert(bit_is_set(nth_word(schema, values, n - 1).unwrap(), b));
                            }
                        }
                    },
                }
            },
        }
    }
}

/// Fail fast, and what a word holds. Encoding succeeds exactly where every
/// field encodes on its own. Where it fails, the error is that of the first
/// field that fails. Where it succeeds, a bit of the word is set exactly where
/// the word of some field has it set.
pub proof fn lemma_encoded_explained(schema: RegisterSchema, values: Seq<FieldValue>)
    ensures
        encoded(schema, values) is Ok <==> forall|i: int|
            0 <= i < schema.fields@.len() ==> nth_word(schema, values, i) is Ok,
        encoded(schema, values) matches Err(e) ==> exists|k: int|
            first_encode_failure(schema, values, k, e),
        encoded(schema, values) matches Ok(word) ==> forall|b: u32|
            b < 64 ==> (#[trigger] bit_is_set(word, b) <==> exists|j: int|
                0 <= j < schema.fields@.len() && bit_is_set(
                    nth_word(schema, values, j).unwrap(),
                    b,
                )),
{
    lemma_encoded_prefix_explained(schema, values, schema.fields@.len());
    if encoded(schema, values) is Err {
        let e = encoded(schema, values)->Err_0;
        let k = choose|k: int|
            k < schema.fields@.len() && first_encode_failure(schema, values, k, e);
        assert(first_encode_failure(schema, values, k, e));
    }
}

/// What the decoding of the first `n` fields is: an error where one of them
/// fails, namely that of the first to fail; else the fields' values under the
/// fields' names.
proof fn lemma_decoded_prefix_explained(schema: RegisterSchema, word: u64, n: nat)
    requires
        n <= schema.fields@.len(),
    ensures
        decoded_prefix(schema, word, n) is Ok <==> forall|i: int|
            0 <= i < n ==> field_value(schema.fields@[i], word) is Ok,
        decoded_prefix(schema, word, n) matches Err(e) ==> exists|k: int|
            k < n && first_decode_failure(schema, word, k, e),
        decoded_prefix(schema, word, n) matches Ok(values) ==> values.len() == n && forall|i: int|
            0 <= i < n ==> (#[trigger] values[i]) == (FieldValue {
                name: schema.fields@[i].name,
                value: field_value(schema.fields@[i], word).unwrap(),
            }),
    decreases n,
{
    if n > 0 {
        lemma_decoded_prefix_explained(schema, word, (n - 1) as nat);
        match decoded_prefix(schema, word, (n - 1) as nat) {
            Err(e) => {
                let k = choose|k: int| k < n - 1 && first_decode_failure(schema, word, k, e);
                assert(k < n && first_decode_failure(schema, word, k, e));
            },
            Ok(values) => {
                match field_value(schema.fields@[n - 1], word) {
                    Err(e) => {
                        assert(first_decode_failure(schema, word, n - 1, e));
                    },
                    Ok(value) => {},
                }
            },
        }
    }
}

/// Fail fast, and what is decoded. Decoding succeeds exactly where every field
/// decodes on its own. Where it fails, the error is that of the first field
/// that fails. Where it succeeds, it lists one entry per field, in schema
/// order: the field's name and the value read from the field's range.
pub proof fn lemma_decoded_explained(schema: RegisterSchema, word: u64)
    ensures
        decoded(schema, word) is Ok <==> forall|i: int|
            0 <= i < schema.fields@.len() ==> field_value(schema.fields@[i], word) is Ok,
        decoded(schema, word) matches Err(e) ==> exists|k: int|
            first_decode_failure(schema, word, k, e),
        decoded(schema, word) matches Ok(values) ==> values.len() == schema.fields@.len()
            && forall|i: int|
            0 <= i < schema.fields@.len() ==> (#[trigger] values[i]) == (FieldValue {
                name: schema.fields@[i].name,
                value: field_value(schema.fields@[i], word).unwrap(),
            }),
{
    lemma_decoded_prefix_explained(schema, word, schema.fields@.len());
    if decoded(schema, word) is Err {
        let e = decoded(schema, word)->Err_0;
        let k = choose|k: int| k < schema.fields@.len() && first_decode_failure(schema, word, k, e);
        assert(first_decode_failure(schema, word, k, e));
    }
}

/// The word of the first `n` fields holds the word of each of them.
proof fn lemma_prefix_holds_word(
    schema: RegisterSchema,
    values: Seq<FieldValue>,
    n: nat,
    j: int,
)
    requires
        0 <= j < n,
        encoded_prefix(schema, values, n) is Ok,
    ensures
        nth_word(schema, values, j).unwrap() | encoded_prefix(schema, values, n).unwrap()
            == encoded_prefix(schema, values, n).unwrap(),
    decreases n,
{
    let before = encoded_prefix(schema, values, (n - 1) as nat).unwrap();
    let last = nth_word(schema, values, n - 1).unwrap();
    let placed = nth_word(schema, values, j).unwrap();
    if j < n - 1 {
        lemma_prefix_holds_word(schema, values, (n - 1) as nat, j);
        assert(placed | (before | last) == before | last) by (bit_vector)
            requires
                placed | before == before,
        ;
    } else {
        assert(last | (before | last) == before | last) by (bit_vector);
    }
}

/// The round trip needs what `lemma_round_trip` asks for: where a word
/// decodes to the values it was encoded from, no field has disturbed another.
pub proof fn lemma_round_trip_only_without_interference(
    schema: RegisterSchema,
    values: Seq<FieldValue>,
    word: u64,
)
    requires
        schema.wf(),
        schema.distinct_discriminants(),
        schema.accepts(values),
        encoded(schema, values) == Ok::<u64, CodecError>(word),
        decoded(schema, word) == Ok::<Seq<FieldValue>, CodecError>(
            in_schema_order(schema, values),
        ),
    ensures
        no_interference(schema, values),
{
    let n = schema.fields@.len();
    lemma_decoded_explained(schema, word);
    assert forall|j: int, i: int| 0 <= j < n && 0 <= i < n implies #[trigger] leaves_intact(
        schema,
        values,
        j,
        i,
    ) by {
        let target = schema.fields@[i];
        let start = target.bit_start;
        let count = target.spec_bit_count() as u32;
        let value = value_of_field(schema, values, i);
        lemma_encoded_ok_fields(schema, values, n, i);
        lemma_encoded_ok_fields(schema, values, n, j);
        let raw = nth_raw(schema, values, i).unwrap();
        let placed = nth_word(schema, values, j).unwrap();
        let got = extract_bits(word, start, count);
        // the field reads its own value out of the word, so the word holds
        // the value's raw bits in the field's range
        assert(in_schema_order(schema, values)[i].value == value);
        assert(field_value(target, word) == Ok::<Value, CodecError>(value));
        assert(target.adapter.wf());
        assert(target.adapter.admits(value));
        lemma_adapter_round_trip(target.adapter, value, schema.word_width, raw);
        lemma_adapter_reads_one_pattern(target.adapter, raw, got);
        // and what field `j` placed is part of the word
        lemma_prefix_holds_word(schema, values, n, j);
        lemma_extract_of_or(placed, word, start, count);
    }
}

/// In a schema without overlap no field disturbs another, whatever the
/// values.
pub proof fn lemma_non_overlapping_no_interference(
    schema: RegisterSchema,
    values: Seq<FieldValue>,
)
    requires
        schema.wf(),
        schema.non_overlapping(),
        forall|i: int| 0 <= i < schema.fields@.len() ==> nth_raw(schema, values, i) is Ok,
    ensures
        no_interference(schema, values),
{
    assert forall|j: int, i: int|
        0 <= j < schema.fields@.len() && 0 <= i < schema.fields@.len() implies #[trigger] leaves_intact(
        schema,
        values,
        j,
        i,
    ) by {
        let source = schema.fields@[j];
        let target = schema.fields@[i];
        assert(source.fits(schema.word_width));
        assert(target.fits(schema.word_width));
        let raw_j = nth_raw(schema, values, j).unwrap();
        let raw_i = nth_raw(schema, values, i).unwrap();
        let source_count = source.spec_bit_count() as u32;
        let target_count = target.spec_bit_count() as u32;
        if i == j {
            lemma_low_mask_is_max_representable(target_count);
            lemma_extract_of_place(raw_i, target.bit_start, target_count);
            assert(raw_i | raw_i == raw_i) by (bit_vector);
        } else {
            assert(source.disjoint_from(target));
            lemma_extract_of_disjoint_place(
                raw_j,
                source.bit_start,
                source_count,
                target.bit_start,
                target_count,
            );
            assert(0u64 | raw_i == raw_i) by (bit_vector);
        }
    }
}

/// Round trip for schemas without overlap: every value set that encodes
/// decodes to itself.
pub proof fn lemma_round_trip_non_overlapping(
    schema: RegisterSchema,
    values: Seq<FieldValue>,
    word: u64,
)
    requires
        schema.wf(),
        schema.distinct_discriminants(),
        schema.non_overlapping(),
        schema.accepts(values),
        encoded(schema, values) == Ok::<u64, CodecError>(word),
    ensures
        decoded(schema, word) == Ok::<Seq<FieldValue>, CodecError>(
            in_schema_order(schema, values),
        ),
{
    assert forall|i: int| 0 <= i < schema.fields@.len() implies nth_raw(schema, values, i) is Ok by {
        lemma_encoded_ok_fields(schema, values, schema.fields@.len(), i);
    }
    lemma_non_overlapping_no_interference(schema, values);
    lemma_round_trip(schema, values, word);
}

/// A value set that lists the fields in schema order, once each, under names
/// that differ from one another, is what `in_schema_order` makes of it: the
/// round trip then gives back the list itself.
pub proof fn lemma_in_schema_order_is_same_list(schema: RegisterSchema, values: Seq<FieldValue>)
    requires
        schema.distinct_names(),
        values.len() == schema.fields@.len(),
        forall|i: int| 0 <= i < values.len() ==> values[i].name@ == schema.fields@[i].name@,
    ensures
        in_schema_order(schema, values).len() == values.len(),
        forall|i: int|
            0 <= i < values.len() ==> {
                &&& (#[trigger] in_schema_order(schema, values)[i]).value == values[i].value
                &&& in_schema_order(schema, values)[i].name@ == values[i].name@
            },
{
    assert forall|i: int| 0 <= i < values.len() implies {
        &&& (#[trigger] in_schema_order(schema, values)[i]).value == values[i].value
        &&& in_schema_order(schema, values)[i].name@ == values[i].name@
    } by {
        let name = schema.fields@[i].name@;
        assert(named_at(values, name, i));
        assert forall|j: int| 0 <= j < i implies !named_at(values, name, j) by {
            assert(values[j].name@ == schema.fields@[j].name@);
        }
        assert(first_named(values, name, i));
        lemma_first_named_is_value_of(values, name, i);
    }
}

/// Range check. With `k` the field's number of bits: raw bits above `2^k - 1`
/// are refused with `ValueExceedsFieldWidth`, and raw bits up to `2^k - 1` are
/// accepted and placed at the field's first bit.
pub proof fn lemma_range_check(field: FieldDescriptor, value: Value, width: WordWidth, raw: u64)
    requires
        field.fits(width),
        field.adapter.to_bits_spec(value, width) == Ok::<u64, AdapterError>(raw),
    ensures
        raw > max_representable(field.spec_bit_count()) ==> field_word(field, value, width) == Err::<
            u64,
            CodecError,
        >(CodecError::ValueExceedsFieldWidth { field_name: field.name }),
        raw <= max_representable(field.spec_bit_count()) ==> field_word(field, value, width) == Ok::<
            u64,
            CodecError,
        >(place_bits(raw, field.bit_start, field.spec_bit_count() as u32)),
{
}

/// The number that an integer value holds; `None` for booleans and symbols.
pub open spec fn number_of(value: Value) -> Option<u64> {
    match value {
        Value::U8(v) => Some(v as u64),
        Value::U16(v) => Some(v as u64),
        Value::U32(v) => Some(v as u64),
        Value::U64(v) => Some(v),
        _ => None,
    }
}

/// Range check on numbers. A number up to `2^k - 1` is accepted by a field of
/// `k` bits, whatever its natural width; a larger one is refused, with
/// `ValueExceedsFieldWidth` unless it does not even fit the word.
pub proof fn lemma_number_range_check(
    field: FieldDescriptor,
    value: Value,
    width: WordWidth,
    number: u64,
)
    requires
        field.fits(width),
        number_of(value) == Some(number),
    ensures
        number <= max_representable(field.spec_bit_count()) <==> field_word(
            field,
            value,
            width,
        ) is Ok,
        number <= max_representable(field.spec_bit_count()) ==> field_word(field, value, width)
            == Ok::<u64, CodecError>(
            place_bits(number, field.bit_start, field.spec_bit_count() as u32),
        ),
        max_representable(field.spec_bit_count()) < number <= width.spec_max_value()
            ==> field_word(field, value, width) == Err::<u64, CodecError>(
            CodecError::ValueExceedsFieldWidth { field_name: field.name },
        ),
        number > width.spec_max_value() ==> field_word(field, value, width) == Err::<
            u64,
            CodecError,
        >(CodecError::CrossWidthOverflow { field_name: field.name }),
{
    let count = field.spec_bit_count() as u32;
    let bits = width.spec_bits();
    width.lemma_max_value();
    lemma_low_mask_is_max_representable(count);
    assert(low_mask(count) <= low_mask(bits)) by (bit_vector)
        requires
            count <= bits <= 64,
    ;
}

/// Full-width field. A field that covers the whole word accepts every raw
/// pattern that fits the word, the word's largest number included, and places
/// it unchanged.
pub proof fn lemma_full_width_field(
    field: FieldDescriptor,
    value: Value,
    width: WordWidth,
    raw: u64,
)
    requires
        field.bit_start == 0,
        field.bit_end == width.spec_bits() - 1,
        field.adapter.to_bits_spec(value, width) == Ok::<u64, AdapterError>(raw),
        raw <= width.spec_max_value(),
    ensures
        field_word(field, value, width) == Ok::<u64, CodecError>(raw),
{
    let bits = width.spec_bits();
    width.lemma_max_value();
    lemma_mask_keeps_small(raw, bits);
    let masked = raw & low_mask(bits);
    assert(masked << 0u32 == masked) by (bit_vector);
}

/// Boolean boundary. Raw bits 0 are `false` and raw bits 1 are `true`;
/// anything else is not a boolean. A field of a single bit cannot hold
/// anything else, so a boolean in such a field always decodes.
pub proof fn lemma_boolean_boundary(field: FieldDescriptor, word: u64)
    requires
        field.adapter is Bool,
    ensures
        field.adapter.from_bits_spec(0) == Ok::<Value, AdapterError>(Value::Bool(false)),
        field.adapter.from_bits_spec(1) == Ok::<Value, AdapterError>(Value::Bool(true)),
        forall|raw: u64|
            raw > 1 ==> #[trigger] field.adapter.from_bits_spec(raw) == Err::<Value, AdapterError>(
                AdapterError::InvalidBooleanBits,
            ),
        field.bit_start == field.bit_end ==> field_value(field, word) == Ok::<Value, CodecError>(
            Value::Bool(extract_bits(word, field.bit_start, 1) == 1),
        ),
{
    if field.bit_start == field.bit_end {
        let start = field.bit_start;
        assert(extract_bits(word, start, 1) <= 1) by (bit_vector);
    }
}

/// Enumeration rejection. Raw bits that are no declared discriminant are
/// refused with `InvalidDiscriminant`; raw bits that are accepted are the
/// discriminant of the variant that is returned.
pub proof fn lemma_enum_rejection(table: EnumTable, raw: u64)
    ensures
        !table.declares(raw) ==> ValueAdapter::Enum(table).from_bits_spec(raw) == Err::<
            Value,
            AdapterError,
        >(AdapterError::InvalidDiscriminant),
        table.declares(raw) ==> ValueAdapter::Enum(table).from_bits_spec(raw) is Ok,
        ValueAdapter::Enum(table).from_bits_spec(raw) matches Ok(value) ==> value is Symbol
            && table.matches_at(raw, value->Symbol_0 as int),
{
    if table.declares(raw) {
        let w = choose|k: int| table.matches_at(raw, k);
        lemma_first_exists(table, raw, w);
        let i = choose|k: int| table.first_match(raw, k);
        assert(table.first_match(raw, i));
        assert(table.variants@.len() == table.variants.len());
    }
}

} // verus!
