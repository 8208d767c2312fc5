use bincode_next::config::Endianness;
use bincode_next::de::read::SliceReader;
use bincode_next::error::{DecodeError, IntegerType};
use bincode_next::varint::{
    varint_decode_u128, varint_decode_u16, varint_decode_u32, varint_decode_u64, U128_BYTE, U16_BYTE,
    U32_BYTE, U64_BYTE,
};

#[test]
fn test_decode_u16() {
    let cases: &[(&[u8], u16, u16)] = &[
        (&[0], 0, 0),
        (&[10], 10, 10),
        (&[U16_BYTE, 0, 10], 2560, 10),
    ];
    for &(slice, expected_le, expected_be) in cases {
        let mut reader = SliceReader::new(slice);
        let found = varint_decode_u16(&mut reader, Endianness::Little).unwrap();
        assert_eq!(expected_le, found);

        let mut reader = SliceReader::new(slice);
        let found = varint_decode_u16(&mut reader, Endianness::Big).unwrap();
        assert_eq!(expected_be, found);
    }

    let errors: &[(&[u8], DecodeError)] = &[
        (&[U32_BYTE], DecodeError::InvalidIntegerType { expected: IntegerType::U16, found: IntegerType::U32 }),
        (&[U64_BYTE], DecodeError::InvalidIntegerType { expected: IntegerType::U16, found: IntegerType::U64 }),
        (&[U128_BYTE], DecodeError::InvalidIntegerType { expected: IntegerType::U16, found: IntegerType::U128 }),
        (&[U16_BYTE], DecodeError::UnexpectedEnd { additional: 2 }),
        (&[U16_BYTE, 0], DecodeError::UnexpectedEnd { additional: 1 }),
    ];

    for (slice, expected) in errors {
        let mut reader = SliceReader::new(slice);
        let found = varint_decode_u16(&mut reader, Endianness::Little).unwrap_err();
        assert_eq!(format!("{expected:?}"), format!("{found:?}"));
    }
}

#[test]
fn test_decode_u32() {
    let cases: &[(&[u8], u32, u32)] = &[
        (&[0], 0, 0),
        (&[10], 10, 10),
        (&[U16_BYTE, 0, 10], 2560, 10),
        (&[U32_BYTE, 0, 0, 0, 10], 167_772_160, 10),
    ];
    for &(slice, expected_le, expected_be) in cases {
        let mut reader = SliceReader::new(slice);
        let found = varint_decode_u32(&mut reader, Endianness::Little).unwrap();
        assert_eq!(expected_le, found);

        let mut reader = SliceReader::new(slice);
        let found = varint_decode_u32(&mut reader, Endianness::Big).unwrap();
        assert_eq!(expected_be, found);
    }

    let errors: &[(&[u8], DecodeError)] = &[
        (&[U64_BYTE], DecodeError::InvalidIntegerType { expected: IntegerType::U32, found: IntegerType::U64 }),
        (&[U128_BYTE], DecodeError::InvalidIntegerType { expected: IntegerType::U32, found: IntegerType::U128 }),
        (&[U16_BYTE], DecodeError::UnexpectedEnd { additional: 2 }),
        (&[U16_BYTE, 0], DecodeError::UnexpectedEnd { additional: 1 }),
        (&[U32_BYTE], DecodeError::UnexpectedEnd { additional: 4 }),
        (&[U32_BYTE, 0], DecodeError::UnexpectedEnd { additional: 3 }),
        (&[U32_BYTE, 0, 0], DecodeError::UnexpectedEnd { additional: 2 }),
        (&[U32_BYTE, 0, 0, 0], DecodeError::UnexpectedEnd { additional: 1 }),
    ];

    for (slice, expected) in errors {
        let mut reader = SliceReader::new(slice);
        let found = varint_decode_u32(&mut reader, Endianness::Little).unwrap_err();
        assert_eq!(format!("{expected:?}"), format!("{found:?}"));
    }
}

#[test]
fn test_decode_u64() {
    let cases: &[(&[u8], u64, u64)] = &[
        (&[0], 0, 0),
        (&[10], 10, 10),
        (&[U16_BYTE, 0, 10], 2560, 10),
        (&[U32_BYTE, 0, 0, 0, 10], 167_772_160, 10),
        (&[U64_BYTE, 0, 0, 0, 0, 0, 0, 0, 10], 720_575_940_379_279_360, 10),
    ];
    for &(slice, expected_le, expected_be) in cases {
        let mut reader = SliceReader::new(slice);
        let found = varint_decode_u64(&mut reader, Endianness::Little).unwrap();
        assert_eq!(expected_le, found);

        let mut reader = SliceReader::new(slice);
        let found = varint_decode_u64(&mut reader, Endianness::Big).unwrap();
        assert_eq!(expected_be, found);
    }

    let errors: &[(&[u8], DecodeError)] = &[
        (&[U128_BYTE], DecodeError::InvalidIntegerType { expected: IntegerType::U64, found: IntegerType::U128 }),
        (&[U16_BYTE], DecodeError::UnexpectedEnd { additional: 2 }),
        (&[U16_BYTE, 0], DecodeError::UnexpectedEnd { additional: 1 }),
        (&[U32_BYTE], DecodeError::UnexpectedEnd { additional: 4 }),
        (&[U32_BYTE, 0], DecodeError::UnexpectedEnd { additional: 3 }),
        (&[U32_BYTE, 0, 0], DecodeError::UnexpectedEnd { additional: 2 }),
        (&[U32_BYTE, 0, 0, 0], DecodeError::UnexpectedEnd { additional: 1 }),
        (&[U64_BYTE], DecodeError::UnexpectedEnd { additional: 8 }),
        (&[U64_BYTE, 0], DecodeError::UnexpectedEnd { additional: 7 }),
        (&[U64_BYTE, 0, 0], DecodeError::UnexpectedEnd { additional: 6 }),
        (&[U64_BYTE, 0, 0, 0], DecodeError::UnexpectedEnd { additional: 5 }),
        (&[U64_BYTE, 0, 0, 0, 0], DecodeError::UnexpectedEnd { additional: 4 }),
        (&[U64_BYTE, 0, 0, 0, 0, 0], DecodeError::UnexpectedEnd { additional: 3 }),
        (&[U64_BYTE, 0, 0, 0, 0, 0, 0], DecodeError::UnexpectedEnd { additional: 2 }),
        (&[U64_BYTE, 0, 0, 0, 0, 0, 0, 0], DecodeError::UnexpectedEnd { additional: 1 }),
    ];

    for (slice, expected) in errors {
        let mut reader = SliceReader::new(slice);
        let found = varint_decode_u64(&mut reader, Endianness::Little).unwrap_err();
        assert_eq!(format!("{expected:?}"), format!("{found:?}"));
    }
}

#[test]
fn test_decode_u128() {
    let cases: &[(&[u8], u128, u128)] = &[
        (&[0], 0, 0),
        (&[10], 10, 10),
        (&[U16_BYTE, 0, 10], 2560, 10),
        (&[U32_BYTE, 0, 0, 0, 10], 167_772_160, 10),
        (&[U64_BYTE, 0, 0, 0, 0, 0, 0, 0, 10], 720_575_940_379_279_360, 10),
        (&[U128_BYTE, 0, 0, 0, 0, 0, 0, 0, 0, 0, 0, 0, 0, 0, 0, 0, 10], 13_292_279_957_849_158_729_038_070_602_803_445_760, 10),
    ];
    for &(slice, expected_le, expected_be) in cases {
        let mut reader = SliceReader::new(slice);
        let found = varint_decode_u128(&mut reader, Endianness::Little).unwrap();
        assert_eq!(expected_le, found);

        let mut reader = SliceReader::new(slice);
        let found = varint_decode_u128(&mut reader, Endianness::Big).unwrap();
        assert_eq!(expected_be, found);
    }

    let errors: &[(&[u8], DecodeError)] = &[
        (&[U16_BYTE], DecodeError::UnexpectedEnd { additional: 2 }),
        (&[U16_BYTE, 0], DecodeError::UnexpectedEnd { additional: 1 }),
        (&[U32_BYTE], DecodeError::UnexpectedEnd { additional: 4 }),
        (&[U32_BYTE, 0], DecodeError::UnexpectedEnd { additional: 3 }),
        (&[U32_BYTE, 0, 0], DecodeError::UnexpectedEnd { additional: 2 }),
        (&[U32_BYTE, 0, 0, 0], DecodeError::UnexpectedEnd { additional: 1 }),
        (&[U64_BYTE], DecodeError::UnexpectedEnd { additional: 8 }),
        (&[U64_BYTE, 0], DecodeError::UnexpectedEnd { additional: 7 }),
        (&[U64_BYTE, 0, 0], DecodeError::UnexpectedEnd { additional: 6 }),
        (&[U64_BYTE, 0, 0, 0], DecodeError::UnexpectedEnd { additional: 5 }),
        (&[U64_BYTE, 0, 0, 0, 0], DecodeError::UnexpectedEnd { additional: 4 }),
        (&[U64_BYTE, 0, 0, 0, 0, 0], DecodeError::UnexpectedEnd { additional: 3 }),
        (&[U64_BYTE, 0, 0, 0, 0, 0, 0], DecodeError::UnexpectedEnd { additional: 2 }),
        (&[U64_BYTE, 0, 0, 0, 0, 0, 0, 0], DecodeError::UnexpectedEnd { additional: 1 }),
        (&[U128_BYTE], DecodeError::UnexpectedEnd { additional: 16 }),
        (&[U128_BYTE, 0], DecodeError::UnexpectedEnd { additional: 15 }),
        (&[U128_BYTE, 0, 0], DecodeError::UnexpectedEnd { additional: 14 }),
        (&[U128_BYTE, 0, 0, 0], DecodeError::UnexpectedEnd { additional: 13 }),
        (&[U128_BYTE, 0, 0, 0, 0], DecodeError::UnexpectedEnd { additional: 12 }),
        (&[U128_BYTE, 0, 0, 0, 0, 0], DecodeError::UnexpectedEnd { additional: 11 }),
        (&[U128_BYTE, 0, 0, 0, 0, 0, 0], DecodeError::UnexpectedEnd { additional: 10 }),
        (&[U128_BYTE, 0, 0, 0, 0, 0, 0, 0], DecodeError::UnexpectedEnd { additional: 9 }),
        (&[U128_BYTE, 0, 0, 0, 0, 0, 0, 0, 0], DecodeError::UnexpectedEnd { additional: 8 }),
        (&[U128_BYTE, 0, 0, 0, 0, 0, 0, 0, 0, 0], DecodeError::UnexpectedEnd { additional: 7 }),
        (&[U128_BYTE, 0, 0, 0, 0, 0, 0, 0, 0, 0, 0], DecodeError::UnexpectedEnd { additional: 6 }),
        (&[U128_BYTE, 0, 0, 0, 0, 0, 0, 0, 0, 0, 0, 0], DecodeError::UnexpectedEnd { additional: 5 }),
        (&[U128_BYTE, 0, 0, 0, 0, 0, 0, 0, 0, 0, 0, 0, 0], DecodeError::UnexpectedEnd { additional: 4 }),
        (&[U128_BYTE, 0, 0, 0, 0, 0, 0, 0, 0, 0, 0, 0, 0, 0], DecodeError::UnexpectedEnd { additional: 3 }),
        (&[U128_BYTE, 0, 0, 0, 0, 0, 0, 0, 0, 0, 0, 0, 0, 0, 0], DecodeError::UnexpectedEnd { additional: 2 }),
        (&[U128_BYTE, 0, 0, 0, 0, 0, 0, 0, 0, 0, 0, 0, 0, 0, 0, 0], DecodeError::UnexpectedEnd { additional: 1 }),
    ];

    for (slice, expected) in errors {
        let mut reader = SliceReader::new(slice);
        let found = varint_decode_u128(&mut reader, Endianness::Little).unwrap_err();
        assert_eq!(format!("{expected:?}"), format!("{found:?}"));
    }
}
