use bit_register::bits::mask_of;
use bit_register::{
    decode_field, encode_field, AdapterError, CodecError, EnumTable, EnumVariant, FieldDescriptor,
    Value, ValueAdapter, WordWidth,
};

fn modes() -> EnumTable {
    EnumTable {
        variants: vec![
            EnumVariant { name: "Idle".to_string(), discriminant: 0 },
            EnumVariant { name: "Busy".to_string(), discriminant: 5 },
            EnumVariant { name: "Done".to_string(), discriminant: 9 },
        ],
    }
}

#[test]
fn bool_adapter_both_ways() {
    let adapter = ValueAdapter::Bool;
    assert_eq!(adapter.to_bits(&Value::Bool(true), WordWidth::W8), Ok(1));
    assert_eq!(adapter.to_bits(&Value::Bool(false), WordWidth::W64), Ok(0));
    assert_eq!(adapter.from_bits(0), Ok(Value::Bool(false)));
    assert_eq!(adapter.from_bits(1), Ok(Value::Bool(true)));
    assert_eq!(adapter.from_bits(2), Err(AdapterError::InvalidBooleanBits));
    assert_eq!(adapter.from_bits(u64::MAX), Err(AdapterError::InvalidBooleanBits));
}

#[test]
fn uint_adapter_to_bits_checks_the_word() {
    let adapter = ValueAdapter::UInt(WordWidth::W32);
    assert_eq!(adapter.to_bits(&Value::U32(255), WordWidth::W8), Ok(255));
    assert_eq!(
        adapter.to_bits(&Value::U32(256), WordWidth::W8),
        Err(AdapterError::CrossWidthOverflow)
    );
    assert_eq!(adapter.to_bits(&Value::U32(65536), WordWidth::W32), Ok(65536));
    assert_eq!(
        adapter.to_bits(&Value::U32(65536), WordWidth::W16),
        Err(AdapterError::CrossWidthOverflow)
    );
    let wide = ValueAdapter::UInt(WordWidth::W64);
    assert_eq!(wide.to_bits(&Value::U64(u64::MAX), WordWidth::W64), Ok(u64::MAX));
    assert_eq!(
        wide.to_bits(&Value::U64(1 << 32), WordWidth::W32),
        Err(AdapterError::CrossWidthOverflow)
    );
    let narrow = ValueAdapter::UInt(WordWidth::W8);
    assert_eq!(narrow.to_bits(&Value::U8(255), WordWidth::W64), Ok(255));
}

#[test]
fn uint_adapter_from_bits_checks_the_natural_width() {
    assert_eq!(ValueAdapter::UInt(WordWidth::W8).from_bits(255), Ok(Value::U8(255)));
    assert_eq!(
        ValueAdapter::UInt(WordWidth::W8).from_bits(256),
        Err(AdapterError::CrossWidthOverflow)
    );
    assert_eq!(ValueAdapter::UInt(WordWidth::W16).from_bits(65535), Ok(Value::U16(65535)));
    assert_eq!(
        ValueAdapter::UInt(WordWidth::W16).from_bits(65536),
        Err(AdapterError::CrossWidthOverflow)
    );
    assert_eq!(ValueAdapter::UInt(WordWidth::W32).from_bits(1 << 31), Ok(Value::U32(1 << 31)));
    assert_eq!(
        ValueAdapter::UInt(WordWidth::W32).from_bits(1 << 32),
        Err(AdapterError::CrossWidthOverflow)
    );
    assert_eq!(ValueAdapter::UInt(WordWidth::W64).from_bits(u64::MAX), Ok(Value::U64(u64::MAX)));
}

#[test]
fn enum_adapter_both_ways() {
    let adapter = ValueAdapter::Enum(modes());
    assert_eq!(adapter.to_bits(&Value::Symbol(0), WordWidth::W8), Ok(0));
    assert_eq!(adapter.to_bits(&Value::Symbol(1), WordWidth::W8), Ok(5));
    assert_eq!(adapter.to_bits(&Value::Symbol(2), WordWidth::W8), Ok(9));
    assert_eq!(adapter.from_bits(5), Ok(Value::Symbol(1)));
    assert_eq!(adapter.from_bits(9), Ok(Value::Symbol(2)));
    for raw in [1u64, 2, 3, 4, 6, 7, 8, 10, 255, u64::MAX] {
        assert_eq!(adapter.from_bits(raw), Err(AdapterError::InvalidDiscriminant));
    }
}

#[test]
fn enum_table_lookup_finds_the_first_match() {
    let table = modes();
    assert_eq!(table.lookup(0), Some(0));
    assert_eq!(table.lookup(9), Some(2));
    assert_eq!(table.lookup(1), None);
    assert!(table.is_distinct());
    let repeated = EnumTable {
        variants: vec![
            EnumVariant { name: "A".to_string(), discriminant: 4 },
            EnumVariant { name: "B".to_string(), discriminant: 7 },
            EnumVariant { name: "C".to_string(), discriminant: 4 },
        ],
    };
    assert!(!repeated.is_distinct());
    assert_eq!(repeated.lookup(4), Some(0));
    assert_eq!(EnumTable::new(repeated.variants.clone()), None);
    assert_eq!(EnumTable::new(table.variants.clone()), Some(modes()));
    let empty = EnumTable { variants: vec![] };
    assert!(empty.is_distinct());
    assert_eq!(empty.lookup(0), None);
}

#[test]
fn adapters_accept_only_their_own_kind() {
    assert!(ValueAdapter::Bool.accepts(&Value::Bool(true)));
    assert!(!ValueAdapter::Bool.accepts(&Value::U8(1)));
    assert!(ValueAdapter::UInt(WordWidth::W8).accepts(&Value::U8(1)));
    assert!(!ValueAdapter::UInt(WordWidth::W8).accepts(&Value::U16(1)));
    assert!(ValueAdapter::UInt(WordWidth::W16).accepts(&Value::U16(1)));
    assert!(ValueAdapter::UInt(WordWidth::W32).accepts(&Value::U32(1)));
    assert!(ValueAdapter::UInt(WordWidth::W64).accepts(&Value::U64(1)));
    assert!(!ValueAdapter::UInt(WordWidth::W64).accepts(&Value::Symbol(0)));
    let adapter = ValueAdapter::Enum(modes());
    assert!(adapter.accepts(&Value::Symbol(2)));
    assert!(!adapter.accepts(&Value::Symbol(3)));
    assert!(!adapter.accepts(&Value::Bool(false)));
}

#[test]
fn word_widths() {
    assert_eq!(WordWidth::W8.bits(), 8);
    assert_eq!(WordWidth::W16.bits(), 16);
    assert_eq!(WordWidth::W32.bits(), 32);
    assert_eq!(WordWidth::W64.bits(), 64);
    assert_eq!(WordWidth::W8.max_value(), 0xff);
    assert_eq!(WordWidth::W16.max_value(), 0xffff);
    assert_eq!(WordWidth::W32.max_value(), 0xffff_ffff);
    assert_eq!(WordWidth::W64.max_value(), u64::MAX);
    assert_eq!(WordWidth::from_bits(8), Some(WordWidth::W8));
    assert_eq!(WordWidth::from_bits(16), Some(WordWidth::W16));
    assert_eq!(WordWidth::from_bits(32), Some(WordWidth::W32));
    assert_eq!(WordWidth::from_bits(64), Some(WordWidth::W64));
    assert_eq!(WordWidth::from_bits(0), None);
    assert_eq!(WordWidth::from_bits(12), None);
    assert_eq!(WordWidth::from_bits(128), None);
    assert_eq!(WordWidth::from_num_bytes(1), Some(WordWidth::W8));
    assert_eq!(WordWidth::from_num_bytes(2), Some(WordWidth::W16));
    assert_eq!(WordWidth::from_num_bytes(4), Some(WordWidth::W32));
    assert_eq!(WordWidth::from_num_bytes(8), Some(WordWidth::W64));
    assert_eq!(WordWidth::from_num_bytes(0), None);
    assert_eq!(WordWidth::from_num_bytes(3), None);
    assert_eq!(WordWidth::from_num_bytes(16), None);
}

#[test]
fn masks() {
    assert_eq!(mask_of(0), 0);
    assert_eq!(mask_of(1), 1);
    assert_eq!(mask_of(4), 15);
    assert_eq!(mask_of(63), u64::MAX >> 1);
    assert_eq!(mask_of(64), u64::MAX);
    assert_eq!(mask_of(200), u64::MAX);
}

fn nibble_at(bit_start: u32) -> FieldDescriptor {
    FieldDescriptor::new(
        "nibble".to_string(),
        bit_start,
        bit_start + 3,
        ValueAdapter::UInt(WordWidth::W8),
    )
    .unwrap()
}

#[test]
fn one_field_is_placed_at_its_first_bit() {
    assert_eq!(encode_field(&nibble_at(0), &Value::U8(0b1011), WordWidth::W16), Ok(0b1011));
    assert_eq!(encode_field(&nibble_at(4), &Value::U8(0b1011), WordWidth::W16), Ok(0b1011_0000));
    assert_eq!(encode_field(&nibble_at(12), &Value::U8(0b1011), WordWidth::W16), Ok(0xb000));
    assert_eq!(encode_field(&nibble_at(60), &Value::U8(0xf), WordWidth::W64), Ok(0xf << 60));
    assert_eq!(
        encode_field(&nibble_at(4), &Value::U8(16), WordWidth::W16),
        Err(CodecError::ValueExceedsFieldWidth { field_name: "nibble".to_string() })
    );
}

#[test]
fn one_field_is_read_from_its_range() {
    assert_eq!(decode_field(&nibble_at(0), 0xabcd, WordWidth::W16), Ok(Value::U8(0xd)));
    assert_eq!(decode_field(&nibble_at(4), 0xabcd, WordWidth::W16), Ok(Value::U8(0xc)));
    assert_eq!(decode_field(&nibble_at(12), 0xabcd, WordWidth::W16), Ok(Value::U8(0xa)));
    assert_eq!(decode_field(&nibble_at(60), 0x9 << 60, WordWidth::W64), Ok(Value::U8(0x9)));
}

#[test]
fn range_check_at_every_width_of_field() {
    for k in 1u32..=8 {
        let field = FieldDescriptor::new(
            "f".to_string(),
            0,
            k - 1,
            ValueAdapter::UInt(WordWidth::W16),
        )
        .unwrap();
        let max = (1u64 << k) - 1;
        for v in 0u16..=300 {
            let result = encode_field(&field, &Value::U16(v), WordWidth::W8);
            if (v as u64) <= max {
                assert_eq!(result, Ok(v as u64));
            } else if v <= 255 {
                assert_eq!(
                    result,
                    Err(CodecError::ValueExceedsFieldWidth { field_name: "f".to_string() })
                );
            } else {
                assert_eq!(
                    result,
                    Err(CodecError::CrossWidthOverflow { field_name: "f".to_string() })
                );
            }
        }
    }
}

#[test]
fn single_bit_boolean_always_decodes() {
    for position in 0u32..64 {
        let flag =
            FieldDescriptor::new("flag".to_string(), position, position, ValueAdapter::Bool)
                .unwrap();
        for word in [0u64, u64::MAX, 1 << position, !(1 << position), 0x5555_5555_5555_5555] {
            assert_eq!(
                decode_field(&flag, word, WordWidth::W64),
                Ok(Value::Bool((word >> position) & 1 == 1))
            );
        }
    }
}

#[test]
fn wide_boolean_refuses_other_patterns() {
    let flag = FieldDescriptor::new("flag".to_string(), 2, 3, ValueAdapter::Bool).unwrap();
    assert_eq!(decode_field(&flag, 0b0000, WordWidth::W8), Ok(Value::Bool(false)));
    assert_eq!(decode_field(&flag, 0b0100, WordWidth::W8), Ok(Value::Bool(true)));
    let refused = Err(CodecError::InvalidBooleanBits { field_name: "flag".to_string() });
    assert_eq!(decode_field(&flag, 0b1000, WordWidth::W8), refused);
    assert_eq!(decode_field(&flag, 0b1100, WordWidth::W8), refused);
}
