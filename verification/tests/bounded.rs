use bincode_next::config::standard;
use bincode_next::error::{DecodeError, EncodeError};
use bincode_next::features::bounded::{BoundedString, BoundedVec, BoundsExceeded};
use bincode_next::{decode_from_slice, encode_to_vec};

#[test]
fn bounded_vec_push_stops_at_capacity() {
    let mut v: BoundedVec<u8, 2> = BoundedVec::new();
    assert_eq!(v.try_push(1), Ok(()));
    assert_eq!(v.try_push(2), Ok(()));
    assert_eq!(v.try_push(3), Err(BoundsExceeded));
    assert_eq!(v.len(), 2);
    assert_eq!(v.into_inner(), vec![1, 2]);
}

#[test]
fn bounded_vec_try_from_checks_the_length() {
    assert!(BoundedVec::<u8, 2>::try_from(vec![1, 2, 3]).is_err());
    let v = BoundedVec::<u8, 3>::try_from(vec![1, 2, 3]).unwrap();
    assert_eq!(v.0, vec![1, 2, 3]);
    let d: BoundedVec<u16, 4> = BoundedVec::default();
    assert!(d.is_empty());
}

#[test]
fn bounded_vec_round_trips_like_a_vec() {
    let v = BoundedVec::<u32, 4>(vec![1, 300, 70_000]);
    let bytes = encode_to_vec(&v, standard()).unwrap();
    assert_eq!(bytes, encode_to_vec(&v.0, standard()).unwrap());
    let (back, n) = decode_from_slice::<BoundedVec<u32, 4>, _>(&bytes, standard()).unwrap();
    assert_eq!(back.0, v.0);
    assert_eq!(n, bytes.len());
}

#[test]
fn bounded_vec_over_capacity_is_refused_both_ways() {
    let v = BoundedVec::<u8, 2>(vec![1, 2, 3]);
    assert_eq!(encode_to_vec(&v, standard()), Err(EncodeError::CapacityExceeded));
    let r = decode_from_slice::<BoundedVec<u8, 2>, _>(&[3u8, 1, 2, 3], standard());
    assert_eq!(r.map(|(v, _)| v.0), Err(DecodeError::CapacityExceeded));
}

#[test]
fn bounded_vec_under_a_limit_gives_claims_back() {
    let config = standard().with_limit::<16>();
    let (back, _) = decode_from_slice::<BoundedVec<u32, 2>, _>(&[2u8, 5, 6], config).unwrap();
    assert_eq!(back.0, vec![5, 6]);
}

#[test]
fn bounded_string_checks_its_byte_length() {
    assert!(BoundedString::<3>::try_from("abcd".to_string()).is_err());
    assert!(BoundedString::<3>::try_from("é".to_string()).is_ok());
    assert!(BoundedString::<1>::try_from("é".to_string()).is_err());
    let s = BoundedString::<8>::try_from("hey".to_string()).unwrap();
    assert_eq!(s.len(), 3);
    assert_eq!(s.into_inner(), "hey".to_string());
    assert_eq!(BoundedString::<2>::default().0, String::new());
    assert_eq!(BoundsExceeded.to_string(), "value exceeds bounded capacity".to_string());
}

#[test]
fn bounded_string_round_trips_and_refuses_long_text() {
    let s = BoundedString::<5>("hello".to_string());
    let bytes = encode_to_vec(&s, standard()).unwrap();
    assert_eq!(bytes, vec![5, b'h', b'e', b'l', b'l', b'o']);
    let (back, _) = decode_from_slice::<BoundedString<5>, _>(&bytes, standard()).unwrap();
    assert_eq!(back.0, "hello");
    let r = decode_from_slice::<BoundedString<4>, _>(&bytes, standard());
    assert_eq!(r.map(|(v, _)| v.0), Err(DecodeError::CapacityExceeded));
    let long = BoundedString::<4>("hello".to_string());
    assert_eq!(encode_to_vec(&long, standard()), Err(EncodeError::CapacityExceeded));
}

#[test]
fn bounded_string_refuses_invalid_utf8() {
    let r = decode_from_slice::<BoundedString<4>, _>(&[2u8, 0xC3, 0x28], standard());
    assert_eq!(r.map(|(v, _)| v.0), Err(DecodeError::Utf8));
}

#[test]
fn bounded_string_in_cbor_is_written_as_text_but_read_as_an_array_length() {
    let config = standard().with_cbor_format();
    let s = BoundedString::<4>("ab".to_string());
    let bytes = encode_to_vec(&s, config).unwrap();
    assert_eq!(bytes, vec![0x62, b'a', b'b']);
    let r = decode_from_slice::<BoundedString<4>, _>(&bytes, config);
    assert!(r.is_err());
    let (back, _) = decode_from_slice::<BoundedString<4>, _>(&[0x82u8, b'a', b'b'], config).unwrap();
    assert_eq!(back.0, "ab");
}
