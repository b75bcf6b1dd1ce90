use bit_register::{NumBytes, TryFromBits, TryIntoBits, Word};

#[test]
fn test_try_into_bits() {
    let value: u8 = 0b1010;
    let bits: u8 = value.try_into_bits().unwrap();
    assert_eq!(bits, 0b1010);
}

#[test]
fn test_bool() {
    assert_eq!(TryIntoBits::<u8>::try_into_bits(false).unwrap(), 0u8);
    assert_eq!(TryIntoBits::<u8>::try_into_bits(true).unwrap(), 1u8);
    assert_eq!(<bool as TryFromBits<u8>>::try_from_bits(0u8).unwrap(), false);
    assert_eq!(<bool as TryFromBits<u8>>::try_from_bits(1u8).unwrap(), true);
    assert_eq!(<bool as TryFromBits<u8>>::try_from_bits(2u8).is_err(), true);
}

#[test]
fn bool_becomes_one_or_zero_in_every_word() {
    assert_eq!(TryIntoBits::<u8>::try_into_bits(true), Ok(1u8));
    assert_eq!(TryIntoBits::<u16>::try_into_bits(true), Ok(1u16));
    assert_eq!(TryIntoBits::<u32>::try_into_bits(true), Ok(1u32));
    assert_eq!(TryIntoBits::<u64>::try_into_bits(true), Ok(1u64));
    assert_eq!(TryIntoBits::<u8>::try_into_bits(false), Ok(0u8));
    assert_eq!(TryIntoBits::<u16>::try_into_bits(false), Ok(0u16));
    assert_eq!(TryIntoBits::<u32>::try_into_bits(false), Ok(0u32));
    assert_eq!(TryIntoBits::<u64>::try_into_bits(false), Ok(0u64));
}

#[test]
fn word_from_bool_is_one_or_zero() {
    assert_eq!(<u8 as Word>::from_bool(true), 1);
    assert_eq!(<u8 as Word>::from_bool(false), 0);
    assert_eq!(<u16 as Word>::from_bool(true), 1);
    assert_eq!(<u16 as Word>::from_bool(false), 0);
    assert_eq!(<u32 as Word>::from_bool(true), 1);
    assert_eq!(<u32 as Word>::from_bool(false), 0);
    assert_eq!(<u64 as Word>::from_bool(true), 1);
    assert_eq!(<u64 as Word>::from_bool(false), 0);
}

#[test]
fn bool_from_bits_in_every_word() {
    assert_eq!(<bool as TryFromBits<u16>>::try_from_bits(1), Ok(true));
    assert_eq!(<bool as TryFromBits<u32>>::try_from_bits(0), Ok(false));
    assert_eq!(<bool as TryFromBits<u64>>::try_from_bits(1), Ok(true));
    assert_eq!(
        <bool as TryFromBits<u64>>::try_from_bits(u64::MAX),
        Err("bit pattern too large for target type bool")
    );
    assert_eq!(
        <bool as TryFromBits<u8>>::try_from_bits(2),
        Err("bit pattern too large for target type bool")
    );
}

#[test]
fn try_into_bits_identity() {
    for val in [0u8, 1, 127, 255] {
        let bits: u8 = val.try_into_bits().unwrap();
        assert_eq!(bits, val);
    }
    for val in [0u16, 1, 255, 256, u16::MAX] {
        let bits: u16 = val.try_into_bits().unwrap();
        assert_eq!(bits, val);
    }
    for val in [0u32, 1, 65535, 65536, u32::MAX] {
        let bits: u32 = val.try_into_bits().unwrap();
        assert_eq!(bits, val);
    }
    for val in [0u64, 1, u32::MAX as u64 + 1, u64::MAX] {
        let bits: u64 = val.try_into_bits().unwrap();
        assert_eq!(bits, val);
    }
}

#[test]
fn try_into_bits_widens() {
    let bits: u16 = 200u8.try_into_bits().unwrap();
    assert_eq!(bits, 200u16);
    let bits: u32 = 60000u16.try_into_bits().unwrap();
    assert_eq!(bits, 60000u32);
    let bits: u64 = u32::MAX.try_into_bits().unwrap();
    assert_eq!(bits, u32::MAX as u64);
}

#[test]
fn try_into_bits_narrows_or_fails() {
    let fits: Result<u8, _> = 255u16.try_into_bits();
    assert_eq!(fits, Ok(255u8));
    let too_large: Result<u8, _> = 256u16.try_into_bits();
    assert_eq!(too_large, Err("u16 value too large for target type"));
    let fits: Result<u16, _> = 65535u32.try_into_bits();
    assert_eq!(fits, Ok(65535u16));
    let too_large: Result<u16, _> = 65536u32.try_into_bits();
    assert_eq!(too_large, Err("u32 value too large for target type"));
    let too_large: Result<u32, _> = (u32::MAX as u64 + 1).try_into_bits();
    assert_eq!(too_large, Err("u64 value too large for target type"));
    let too_large: Result<u8, _> = 256u64.try_into_bits();
    assert_eq!(too_large, Err("u64 value too large for target type"));
}

#[test]
fn try_from_bits_identity_and_widening() {
    let val: u8 = TryFromBits::try_from_bits(17u8).unwrap();
    assert_eq!(val, 17);
    let val: u16 = TryFromBits::try_from_bits(17u8).unwrap();
    assert_eq!(val, 17);
    let val: u32 = TryFromBits::try_from_bits(40000u16).unwrap();
    assert_eq!(val, 40000);
    let val: u64 = TryFromBits::try_from_bits(u64::MAX).unwrap();
    assert_eq!(val, u64::MAX);
}

#[test]
fn try_from_bits_narrows_or_fails() {
    let fits: Result<u8, _> = TryFromBits::try_from_bits(255u16);
    assert_eq!(fits, Ok(255u8));
    let too_large: Result<u8, _> = TryFromBits::try_from_bits(256u16);
    assert_eq!(too_large, Err("bit pattern too large for target type u8"));
    let fits: Result<u16, _> = TryFromBits::try_from_bits(65535u32);
    assert_eq!(fits, Ok(65535u16));
    let too_large: Result<u16, _> = TryFromBits::try_from_bits(65536u32);
    assert_eq!(too_large, Err("bit pattern too large for target type u16"));
    let too_large: Result<u32, _> = TryFromBits::try_from_bits(1u64 << 32);
    assert_eq!(too_large, Err("bit pattern too large for target type u32"));
}

#[test]
fn num_bytes_of_each_type() {
    assert_eq!(<u8 as NumBytes>::NUM_BYTES, 1);
    assert_eq!(<u16 as NumBytes>::NUM_BYTES, 2);
    assert_eq!(<u32 as NumBytes>::NUM_BYTES, 4);
    assert_eq!(<u64 as NumBytes>::NUM_BYTES, 8);
    assert_eq!(<bool as NumBytes>::NUM_BYTES, 1);
}

#[test]
fn words_widen_and_narrow() {
    assert_eq!(200u8.to_u64(), 200);
    assert_eq!(u64::MAX.to_u64(), u64::MAX);
    assert_eq!(<u8 as Word>::from_u64(255), Some(255u8));
    assert_eq!(<u8 as Word>::from_u64(256), None);
    assert_eq!(<u16 as Word>::from_u64(65535), Some(65535u16));
    assert_eq!(<u16 as Word>::from_u64(65536), None);
    assert_eq!(<u32 as Word>::from_u64(u32::MAX as u64), Some(u32::MAX));
    assert_eq!(<u32 as Word>::from_u64(u32::MAX as u64 + 1), None);
    assert_eq!(<u64 as Word>::from_u64(u64::MAX), Some(u64::MAX));
}
