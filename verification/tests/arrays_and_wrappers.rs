use bincode_next::config::standard;
use bincode_next::error::DecodeError;
use bincode_next::{borrow_decode_from_slice, decode_from_slice, encode_to_vec};
use std::collections::VecDeque;
use std::marker::PhantomData;
use std::rc::Rc;
use std::sync::Arc;

#[test]
fn byte_arrays_are_raw_in_bincode_and_byte_strings_in_cbor() {
    let a = [1u8, 2, 3];
    assert_eq!(encode_to_vec(a, standard()).unwrap(), vec![1, 2, 3]);
    assert_eq!(encode_to_vec(a, standard().with_cbor_format()).unwrap(), vec![0x43, 1, 2, 3]);
    assert_eq!(decode_from_slice::<[u8; 3], _>(&[1u8, 2, 3, 9], standard()).unwrap(), (a, 3));
    assert_eq!(
        decode_from_slice::<[u8; 3], _>(&[0x43u8, 1, 2, 3], standard().with_cbor_format()).unwrap(),
        (a, 4)
    );
    assert_eq!(
        borrow_decode_from_slice::<[i8; 2], _>(&[0xFFu8, 0x01], standard()).unwrap(),
        ([-1i8, 1], 2)
    );
}

#[test]
fn arrays_of_wider_items() {
    let a = [300u16, 1];
    assert_eq!(encode_to_vec(a, standard()).unwrap(), vec![251, 44, 1, 1]);
    let cbor = encode_to_vec(a, standard().with_cbor_format()).unwrap();
    assert_eq!(cbor, vec![0x82, 0x19, 0x01, 0x2C, 0x01]);
    assert_eq!(decode_from_slice::<[u16; 2], _>(&cbor, standard().with_cbor_format()).unwrap(), (a, 5));
    let fixed = standard().with_fixed_int_encoding();
    let bytes = encode_to_vec(a, fixed).unwrap();
    assert_eq!(bytes, vec![44, 1, 1, 0]);
    assert_eq!(decode_from_slice::<[u16; 2], _>(&bytes, fixed).unwrap(), (a, 4));
}

#[test]
fn array_length_mismatch_in_cbor() {
    let r = decode_from_slice::<[u8; 3], _>(&[0x42u8, 1, 2], standard().with_cbor_format());
    assert_eq!(r, Err(DecodeError::ArrayLengthMismatch { required: 3, found: 2 }));
    let r = decode_from_slice::<[u32; 3], _>(&[0x82u8, 1, 2], standard().with_cbor_format());
    assert_eq!(r, Err(DecodeError::ArrayLengthMismatch { required: 3, found: 2 }));
    let (a, n) = decode_from_slice::<[u32; 2], _>(&[0x9Fu8, 1, 2, 0xFF], standard().with_cbor_format()).unwrap();
    assert_eq!(a, [1, 2]);
    assert_eq!(n, 3);
}

#[test]
fn slices_carry_their_length() {
    let bytes: &[u8] = &[1, 2, 3];
    assert_eq!(encode_to_vec(bytes, standard()).unwrap(), vec![3, 1, 2, 3]);
    assert_eq!(encode_to_vec(bytes, standard().with_cbor_format()).unwrap(), vec![0x43, 1, 2, 3]);
    let words: &[u32] = &[1, 70_000];
    assert_eq!(encode_to_vec(words, standard()).unwrap(), vec![2, 1, 252, 0x70, 0x11, 0x01, 0x00]);
    let (back, _) = decode_from_slice::<Vec<u32>, _>(&encode_to_vec(words, standard()).unwrap(), standard()).unwrap();
    assert_eq!(back, words.to_vec());
}

#[test]
fn ranges_are_their_two_ends() {
    assert_eq!(encode_to_vec(1u32..5, standard()).unwrap(), vec![1, 5]);
    assert_eq!(encode_to_vec(1u32..=5, standard()).unwrap(), vec![1, 5]);
    assert_eq!(decode_from_slice::<std::ops::Range<u32>, _>(&[1u8, 5], standard()).unwrap(), (1..5, 2));
    assert_eq!(
        decode_from_slice::<std::ops::RangeInclusive<i8>, _>(&[0xFFu8, 5], standard()).unwrap(),
        (-1..=5, 2)
    );
}

#[test]
fn pointers_encode_what_they_point_to() {
    assert_eq!(encode_to_vec(Box::new(7u32), standard()).unwrap(), vec![7]);
    assert_eq!(encode_to_vec(Rc::new("ab".to_string()), standard()).unwrap(), vec![2, b'a', b'b']);
    assert_eq!(encode_to_vec(Arc::new(vec![1u8]), standard()).unwrap(), vec![1, 1]);
    assert_eq!(*decode_from_slice::<Box<u32>, _>(&[7u8], standard()).unwrap().0, 7);
    assert_eq!(*decode_from_slice::<Rc<String>, _>(&[2u8, b'a', b'b'], standard()).unwrap().0, "ab");
    assert_eq!(*decode_from_slice::<Arc<Vec<u8>>, _>(&[1u8, 1], standard()).unwrap().0, vec![1]);
}

#[test]
fn deques_are_sequences() {
    let mut d: VecDeque<i16> = VecDeque::new();
    d.push_back(-2);
    d.push_front(300);
    let bytes = encode_to_vec(&d, standard()).unwrap();
    assert_eq!(bytes, encode_to_vec(vec![300i16, -2], standard()).unwrap());
    let (back, _) = decode_from_slice::<VecDeque<i16>, _>(&bytes, standard()).unwrap();
    assert_eq!(back, d);
}

#[test]
fn phantom_data_takes_no_bytes() {
    assert_eq!(encode_to_vec(PhantomData::<String>, standard()).unwrap(), Vec::<u8>::new());
    assert_eq!(decode_from_slice::<PhantomData<u64>, _>(&[], standard()).unwrap(), (PhantomData, 0));
}
