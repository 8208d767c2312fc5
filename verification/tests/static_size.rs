use bincode_next::config::{legacy, standard};
use bincode_next::error::DecodeError;
use bincode_next::features::bounded::{BoundedString, BoundedVec};
use bincode_next::utils::BitPackedCheck;
use bincode_next::{
    borrow_decode_from_slice_static, decode_from_slice_static, decode_from_slice_static_with_context,
    encode_to_vec, StaticSize,
};

#[test]
fn static_sizes_of_primitives() {
    assert_eq!(<bool as StaticSize>::MAX_SIZE, 1);
    assert_eq!(<u16 as StaticSize>::MAX_SIZE, 3);
    assert_eq!(<i32 as StaticSize>::MAX_SIZE, 5);
    assert_eq!(<u64 as StaticSize>::MAX_SIZE, 9);
    assert_eq!(<i128 as StaticSize>::MAX_SIZE, 17);
    assert_eq!(<char as StaticSize>::MAX_SIZE, 4);
    assert_eq!(<() as StaticSize>::MAX_SIZE, 0);
}

#[test]
fn static_sizes_of_composites() {
    assert_eq!(<Option<u64> as StaticSize>::MAX_SIZE, 10);
    assert_eq!(<Result<u8, u64> as StaticSize>::MAX_SIZE, 14);
    assert_eq!(<Result<u64, u8> as StaticSize>::MAX_SIZE, 14);
    assert_eq!(<[u16; 4] as StaticSize>::MAX_SIZE, 12);
    assert_eq!(<(u8, u16, u32) as StaticSize>::MAX_SIZE, 9);
    assert_eq!(<BoundedVec<u32, 3> as StaticSize>::MAX_SIZE, 24);
    assert_eq!(<BoundedString<10> as StaticSize>::MAX_SIZE, 19);
}

#[test]
fn encoded_primitives_fit_their_static_size() {
    for v in [0u64, 250, 251, 65_535, 65_536, u32::MAX as u64, u64::MAX] {
        assert!(encode_to_vec(v, standard()).unwrap().len() <= <u64 as StaticSize>::MAX_SIZE);
        assert!(encode_to_vec(v, legacy()).unwrap().len() <= <u64 as StaticSize>::MAX_SIZE);
    }
    for v in [i128::MIN, -1, 0, i128::MAX] {
        assert!(encode_to_vec(v, standard()).unwrap().len() <= <i128 as StaticSize>::MAX_SIZE);
    }
    assert_eq!(encode_to_vec(u128::MAX, standard()).unwrap().len(), 17);
    assert!(encode_to_vec(u128::MAX, standard().with_cbor_format()).unwrap().len() > 17);
}

#[test]
fn decode_from_fixed_buffers() {
    let buf = [5u8, 0, 0, 0, 0, 0, 0, 0];
    let v: u32 = decode_from_slice_static::<u32, 8, _>(&buf, standard()).unwrap();
    assert_eq!(v, 5);
    let v: Option<u16> = borrow_decode_from_slice_static::<Option<u16>, 8, _>(&[1u8, 251, 0, 1, 0, 0, 0, 0], standard()).unwrap();
    assert_eq!(v, Some(256));
    let v: u8 = decode_from_slice_static_with_context::<u32, u8, 8, _>(&buf, standard(), 7u32).unwrap();
    assert_eq!(v, 5);
    let r = decode_from_slice_static::<bool, 1, _>(&[2u8], standard());
    assert_eq!(r, Err(DecodeError::InvalidBooleanValue(2)));
}

#[test]
fn bit_packed_widths_are_checked() {
    assert!(<u8 as BitPackedCheck<8>>::check());
    assert!(!<u8 as BitPackedCheck<9>>::check());
    assert!(<u16 as BitPackedCheck<9>>::check());
    assert!(!<u64 as BitPackedCheck<0>>::check());
    assert!(<u64 as BitPackedCheck<64>>::check());
    assert!(!<u128 as BitPackedCheck<65>>::check());
}
