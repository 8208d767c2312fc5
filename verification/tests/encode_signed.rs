use bincode_next::config::Endianness;
use bincode_next::enc::write::SliceWriter;
use bincode_next::varint::{
    varint_encode_i128, varint_encode_i16, varint_encode_i32, varint_encode_i64, U128_BYTE,
    U16_BYTE, U32_BYTE, U64_BYTE,
};

#[test]
fn test_encode_i16() {
    let cases: &[(i16, &[u8], &[u8])] = &[
        (0, &[0], &[0]),
        (2, &[4], &[4]),
        (256, &[U16_BYTE, 0, 2], &[U16_BYTE, 2, 0]),
        (
            16_000,
            &[U16_BYTE, 0, 125],
            &[U16_BYTE, 125, 0],
        ),
        (
            i16::MAX - 1,
            &[U16_BYTE, 252, 255],
            &[U16_BYTE, 255, 252],
        ),
        (
            i16::MAX,
            &[U16_BYTE, 254, 255],
            &[U16_BYTE, 255, 254],
        ),
    ];

    let mut buffer = [0u8; 20];
    for &(value, expected_le, expected_be) in cases {
        println!("{:?}", value);

        // Little endian
        let mut writer = SliceWriter::new(&mut buffer);
        varint_encode_i16(&mut writer, Endianness::Little, value).unwrap();

        assert_eq!(writer.bytes_written(), expected_le.len());
        assert_eq!(&buffer[..expected_le.len()], expected_le);

        // Big endian
        let mut writer = SliceWriter::new(&mut buffer);
        varint_encode_i16(&mut writer, Endianness::Big, value).unwrap();

        assert_eq!(writer.bytes_written(), expected_be.len());
        assert_eq!(&buffer[..expected_be.len()], expected_be);
    }
}

#[test]
fn test_encode_i32() {
    let cases: &[(i32, &[u8], &[u8])] = &[
        (0, &[0], &[0]),
        (2, &[4], &[4]),
        (256, &[U16_BYTE, 0, 2], &[U16_BYTE, 2, 0]),
        (
            16_000,
            &[U16_BYTE, 0, 125],
            &[U16_BYTE, 125, 0],
        ),
        (
            40_000,
            &[U32_BYTE, 128, 56, 1, 0],
            &[U32_BYTE, 0, 1, 56, 128],
        ),
        (
            i32::MAX - 1,
            &[U32_BYTE, 252, 255, 255, 255],
            &[U32_BYTE, 255, 255, 255, 252],
        ),
        (
            i32::MAX,
            &[U32_BYTE, 254, 255, 255, 255],
            &[U32_BYTE, 255, 255, 255, 254],
        ),
    ];

    let mut buffer = [0u8; 20];
    for &(value, expected_le, expected_be) in cases {
        println!("{:?}", value);

        // Little endian
        let mut writer = SliceWriter::new(&mut buffer);
        varint_encode_i32(&mut writer, Endianness::Little, value).unwrap();

        assert_eq!(writer.bytes_written(), expected_le.len());
        assert_eq!(&buffer[..expected_le.len()], expected_le);

        // Big endian
        let mut writer = SliceWriter::new(&mut buffer);
        varint_encode_i32(&mut writer, Endianness::Big, value).unwrap();

        assert_eq!(writer.bytes_written(), expected_be.len());
        assert_eq!(&buffer[..expected_be.len()], expected_be);
    }
}

#[test]
fn test_encode_i64() {
    let cases: &[(i64, &[u8], &[u8])] = &[
        (0, &[0], &[0]),
        (2, &[4], &[4]),
        (256, &[U16_BYTE, 0, 2], &[U16_BYTE, 2, 0]),
        (
            16_000,
            &[U16_BYTE, 0, 125],
            &[U16_BYTE, 125, 0],
        ),
        (
            40_000,
            &[U32_BYTE, 128, 56, 1, 0],
            &[U32_BYTE, 0, 1, 56, 128],
        ),
        (
            3_000_000_000,
            &[U64_BYTE, 0, 188, 160, 101, 1, 0, 0, 0],
            &[U64_BYTE, 0, 0, 0, 1, 101, 160, 188, 0],
        ),
        (
            i64::MAX - 1,
            &[U64_BYTE, 252, 255, 255, 255, 255, 255, 255, 255],
            &[U64_BYTE, 255, 255, 255, 255, 255, 255, 255, 252],
        ),
        (
            i64::MAX,
            &[U64_BYTE, 254, 255, 255, 255, 255, 255, 255, 255],
            &[U64_BYTE, 255, 255, 255, 255, 255, 255, 255, 254],
        ),
    ];

    let mut buffer = [0u8; 20];
    for &(value, expected_le, expected_be) in cases {
        println!("{:?}", value);

        // Little endian
        let mut writer = SliceWriter::new(&mut buffer);
        varint_encode_i64(&mut writer, Endianness::Little, value).unwrap();

        assert_eq!(writer.bytes_written(), expected_le.len());
        assert_eq!(&buffer[..expected_le.len()], expected_le);

        // Big endian
        let mut writer = SliceWriter::new(&mut buffer);
        varint_encode_i64(&mut writer, Endianness::Big, value).unwrap();

        assert_eq!(writer.bytes_written(), expected_be.len());
        assert_eq!(&buffer[..expected_be.len()], expected_be);
    }
}

#[test]
fn test_encode_i128() {
    let cases: &[(i128, &[u8], &[u8])] = &[
        (0, &[0], &[0]),
        (2, &[4], &[4]),
        (256, &[U16_BYTE, 0, 2], &[U16_BYTE, 2, 0]),
        (
            16_000,
            &[U16_BYTE, 0, 125],
            &[U16_BYTE, 125, 0],
        ),
        (
            40_000,
            &[U32_BYTE, 128, 56, 1, 0],
            &[U32_BYTE, 0, 1, 56, 128],
        ),
        (
            3_000_000_000,
            &[U64_BYTE, 0, 188, 160, 101, 1, 0, 0, 0],
            &[U64_BYTE, 0, 0, 0, 1, 101, 160, 188, 0],
        ),
        (
            11_000_000_000_000_000_000,
            &[
                U128_BYTE,
                0, 0, 152, 98, 112, 179, 79, 49,
                1, 0, 0, 0, 0, 0, 0, 0,
            ],
            &[
                U128_BYTE,
                0, 0, 0, 0, 0, 0, 0, 1,
                49, 79, 179, 112, 98, 152, 0, 0,
            ],
        ),
        (
            i128::MAX - 1,
            &[
                U128_BYTE,
                252, 255, 255, 255, 255, 255, 255, 255,
                255, 255, 255, 255, 255, 255, 255, 255,
            ],
            &[
                U128_BYTE,
                255, 255, 255, 255, 255, 255, 255, 255,
                255, 255, 255, 255, 255, 255, 255, 252,
            ],
        ),
        (
            i128::MAX,
            &[
                U128_BYTE,
                254, 255, 255, 255, 255, 255, 255, 255,
                255, 255, 255, 255, 255, 255, 255, 255,
            ],
            &[
                U128_BYTE,
                255, 255, 255, 255, 255, 255, 255, 255,
                255, 255, 255, 255, 255, 255, 255, 254,
            ],
        ),
    ];

    let mut buffer = [0u8; 20];
    for &(value, expected_le, expected_be) in cases {
        println!("{:?}", value);

        // Little endian
        let mut writer = SliceWriter::new(&mut buffer);
        varint_encode_i128(&mut writer, Endianness::Little, value).unwrap();

        assert_eq!(writer.bytes_written(), expected_le.len());
        assert_eq!(&buffer[..expected_le.len()], expected_le);

        // Big endian
        let mut writer = SliceWriter::new(&mut buffer);
        varint_encode_i128(&mut writer, Endianness::Big, value).unwrap();

        assert_eq!(writer.bytes_written(), expected_be.len());
        assert_eq!(&buffer[..expected_be.len()], expected_be);
    }
}
