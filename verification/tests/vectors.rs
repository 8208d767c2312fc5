use bincode_next::config::{legacy, standard};
use bincode_next::error::{DecodeError, EncodeError};
use bincode_next::{borrow_decode_from_slice, decode_from_slice, encode_to_vec};

#[test]
fn vec_of_u32_round_trips_in_every_format() {
    let v: Vec<u32> = vec![0, 1, 250, 251, 300, 70_000, u32::MAX];
    let configs = [
        standard(),
        legacy(),
        standard().with_fixed_int_encoding(),
        standard().with_big_endian(),
        standard().with_cbor_format(),
    ];
    for config in configs {
        let bytes = encode_to_vec(&v, config).unwrap();
        let (back, n) = decode_from_slice::<Vec<u32>, _>(&bytes, config).unwrap();
        assert_eq!(back, v);
        assert_eq!(n, bytes.len());
        let (back, n) = borrow_decode_from_slice::<Vec<u32>, _>(&bytes, config).unwrap();
        assert_eq!(back, v);
        assert_eq!(n, bytes.len());
    }
}

#[test]
fn vec_bytes_in_standard_format() {
    let v: Vec<u8> = vec![1, 2, 3];
    let bytes = encode_to_vec(&v, standard()).unwrap();
    assert_eq!(bytes, vec![3, 1, 2, 3]);
    let (back, n) = decode_from_slice::<Vec<u8>, _>(&bytes, standard()).unwrap();
    assert_eq!(back, v);
    assert_eq!(n, 4);
}

#[test]
fn vec_of_u16_in_standard_format() {
    let v: Vec<u16> = vec![1, 300];
    let bytes = encode_to_vec(&v, standard()).unwrap();
    assert_eq!(bytes, vec![2, 1, 251, 44, 1]);
}

#[test]
fn vec_in_legacy_format_has_a_fixed_length() {
    let v: Vec<u8> = vec![7];
    let bytes = encode_to_vec(&v, legacy()).unwrap();
    assert_eq!(bytes, vec![1, 0, 0, 0, 0, 0, 0, 0, 7]);
}

#[test]
fn vec_of_bytes_in_cbor_is_an_array_of_integers() {
    let v: Vec<u8> = vec![1, 2, 30];
    let bytes = encode_to_vec(&v, standard().with_cbor_format()).unwrap();
    assert_eq!(bytes, vec![0x83, 0x01, 0x02, 0x18, 30]);
    let (back, _) = decode_from_slice::<Vec<u8>, _>(&bytes, standard().with_cbor_format()).unwrap();
    assert_eq!(back, v);
}

#[test]
fn vec_of_bytes_reads_a_cbor_byte_string() {
    let bytes = [0x43u8, 1, 2, 30];
    let (back, n) = decode_from_slice::<Vec<u8>, _>(&bytes, standard().with_cbor_format()).unwrap();
    assert_eq!(back, vec![1, 2, 30]);
    assert_eq!(n, 4);
    let (back, _) = decode_from_slice::<Vec<i8>, _>(&[0x41u8, 0xFF], standard().with_cbor_format()).unwrap();
    assert_eq!(back, vec![-1]);
}

#[test]
fn vec_of_bytes_reads_an_indefinite_cbor_byte_string() {
    let bytes = [0x5Fu8, 0x41, 1, 0x42, 2, 3, 0x40, 0xFF];
    let (back, n) = decode_from_slice::<Vec<u8>, _>(&bytes, standard().with_cbor_format()).unwrap();
    assert_eq!(back, vec![1, 2, 3]);
    assert_eq!(n, bytes.len());
}

#[test]
fn vec_reads_an_indefinite_cbor_array() {
    let bytes = [0x9Fu8, 0x01, 0x18, 100, 0xFF, 0xAA];
    let (back, n) = decode_from_slice::<Vec<u32>, _>(&bytes, standard().with_cbor_format()).unwrap();
    assert_eq!(back, vec![1, 100]);
    assert_eq!(n, 5);
}

#[test]
fn vec_of_strings_round_trips() {
    let v: Vec<String> = vec!["a".to_string(), String::new(), "héllo".to_string()];
    for config in [standard(), standard().with_cbor_format()] {
        let bytes = encode_to_vec(&v, config).unwrap();
        let (back, _) = decode_from_slice::<Vec<String>, _>(&bytes, config).unwrap();
        assert_eq!(back, v);
    }
}

#[test]
fn nested_vectors_round_trip() {
    let v: Vec<Vec<i64>> = vec![vec![], vec![-1, 2], vec![i64::MIN, i64::MAX]];
    let bytes = encode_to_vec(&v, standard()).unwrap();
    let (back, _) = decode_from_slice::<Vec<Vec<i64>>, _>(&bytes, standard()).unwrap();
    assert_eq!(back, v);
}

#[test]
fn vec_cut_short_is_unexpected_end() {
    let r = decode_from_slice::<Vec<u8>, _>(&[5u8, 1, 2], standard());
    assert_eq!(r, Err(DecodeError::UnexpectedEnd { additional: 3 }));
    let r = decode_from_slice::<Vec<u16>, _>(&[2u8, 1], standard());
    assert!(matches!(r, Err(DecodeError::UnexpectedEnd { .. })));
}

#[test]
fn vec_over_the_limit_is_refused() {
    let config = standard().with_limit::<6>();
    let r = decode_from_slice::<Vec<u8>, _>(&[3u8, 1, 2, 3], config);
    assert_eq!(r, Err(DecodeError::LimitExceeded));
    let r = decode_from_slice::<Vec<u8>, _>(&[3u8, 1, 2, 3], standard().with_limit::<100>());
    assert_eq!(r, Ok((vec![1u8, 2, 3], 4)));
}

#[test]
fn vec_encode_into_a_short_slice_fails() {
    let v: Vec<u8> = vec![1, 2, 3];
    let mut dst = [0u8; 2];
    let r = bincode_next::encode_into_slice(&v, &mut dst, standard());
    assert_eq!(r, Err(EncodeError::UnexpectedEnd));
    let mut dst = [0u8; 4];
    let r = bincode_next::encode_into_slice(&v, &mut dst, standard());
    assert_eq!(r, Ok(4));
    assert_eq!(dst, [3, 1, 2, 3]);
}
