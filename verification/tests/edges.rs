use bincode_next::config::standard;
use bincode_next::de::cbor::{decode_i128, decode_i16, decode_i8};
use bincode_next::de::read::SliceReader;
use bincode_next::enc::bit_writer::BitWriter;
use bincode_next::enc::cbor::encode_slice_deterministic;
use bincode_next::enc::write::{SliceWriter, Writer};
use bincode_next::enc::EncoderImpl;
use bincode_next::error::{DecodeError, EncodeError};
use bincode_next::features::bounded::BoundedVec;
use bincode_next::float_bits::f64_special_to_f32;
use bincode_next::{decode_from_slice, encode_to_vec};

#[test]
fn cbor_negative_integers_out_of_range_are_refused() {
    // major type 1 with argument 2^64 - 1 stands for -2^64
    let bytes = [0x3B, 0xFF, 0xFF, 0xFF, 0xFF, 0xFF, 0xFF, 0xFF, 0xFF];
    assert!(decode_i8(&mut SliceReader::new(&bytes)).is_err());
    assert!(decode_i16(&mut SliceReader::new(&bytes)).is_err());
    // major type 1 with argument 2^63 stands for -2^63 - 1
    let bytes = [0x3B, 0x80, 0, 0, 0, 0, 0, 0, 0];
    assert!(decode_i8(&mut SliceReader::new(&bytes)).is_err());
    assert_eq!(decode_i8(&mut SliceReader::new(&[0x37])), Ok(-24));
    assert_eq!(decode_i8(&mut SliceReader::new(&[0x38, 0x7F])), Ok(-128));
    assert!(decode_i8(&mut SliceReader::new(&[0x38, 0x80])).is_err());
}

#[test]
fn cbor_bignums_outside_i128_are_refused() {
    let mut big = vec![0xC3, 0x50, 0x80];
    big.extend_from_slice(&[0u8; 15]);
    assert!(decode_i128(&mut SliceReader::new(&big)).is_err());
    big[0] = 0xC2;
    assert!(decode_i128(&mut SliceReader::new(&big)).is_err());
    let mut edge = vec![0xC3, 0x50, 0x7F];
    edge.extend_from_slice(&[0xFFu8; 15]);
    assert_eq!(decode_i128(&mut SliceReader::new(&edge)), Ok(i128::MIN));
    edge[0] = 0xC2;
    assert_eq!(decode_i128(&mut SliceReader::new(&edge)), Ok(i128::MAX));
    let cbor = standard().with_cbor_format();
    for v in [i128::MIN, i128::MAX, -1, 0, u64::MAX as i128 + 1, -(u64::MAX as i128) - 2] {
        let bytes = encode_to_vec(v, cbor).unwrap();
        assert_eq!(decode_from_slice::<i128, _>(&bytes, cbor).unwrap(), (v, bytes.len()));
    }
}

#[test]
fn fixed_width_integers_write_discriminants_as_u32() {
    let c = standard().with_fixed_int_encoding();
    assert_eq!(encode_to_vec(7u32, c).unwrap(), vec![7, 0, 0, 0]);
    assert_eq!(encode_to_vec(&[1u8, 2][..], c).unwrap(), vec![2, 0, 0, 0, 0, 0, 0, 0, 1, 2]);
    let bytes = encode_to_vec(Ok::<u8, u8>(9), c).unwrap();
    assert_eq!(bytes, vec![0, 0, 0, 0, 9]);
    assert_eq!(decode_from_slice::<Result<u8, u8>, _>(&bytes, c).unwrap(), (Ok(9), 5));
    let bytes = encode_to_vec(Err::<u8, u8>(3), c).unwrap();
    assert_eq!(bytes, vec![1, 0, 0, 0, 3]);
    // with variable-width integers the discriminant is a varint
    assert_eq!(encode_to_vec(Err::<u8, u8>(3), standard()).unwrap(), vec![1, 3]);
}

#[test]
fn a_failed_flush_keeps_the_pending_bits() {
    let mut storage = [0u8; 0];
    let mut bits = BitWriter::new(SliceWriter::new(&mut storage));
    bits.write_bits_lsb(0b101, 3).unwrap();
    let before = bits.get_state();
    assert!(bits.flush().is_err());
    assert_eq!(bits.get_state(), before);
    let mut storage = [0u8; 1];
    let mut bits = BitWriter::new(SliceWriter::new(&mut storage));
    bits.write_bits_lsb(0b101, 3).unwrap();
    bits.flush().unwrap();
    assert_eq!(bits.get_state(), (0, 0));
    bits.flush().unwrap();
    assert_eq!(bits.into_inner().bytes_written(), 1);
}

#[test]
fn deterministic_encoding_passes_an_item_error_on() {
    let config = standard().with_deterministic_cbor();
    let mut encoder = EncoderImpl::new(Vec::<u8>::new(), config);
    let too_long: BoundedVec<u8, 1> = BoundedVec(vec![1, 2]);
    assert_eq!(
        encode_slice_deterministic(&mut encoder, &[too_long]),
        Err(EncodeError::CapacityExceeded)
    );
}

#[test]
fn non_finite_doubles_narrow_by_their_bits() {
    assert_eq!(f64_special_to_f32(f64::INFINITY.to_bits()), Some(f32::INFINITY.to_bits()));
    assert_eq!(f64_special_to_f32(f64::NEG_INFINITY.to_bits()), Some(f32::NEG_INFINITY.to_bits()));
    assert_eq!(f64_special_to_f32(f64::NAN.to_bits()), Some(f32::NAN.to_bits()));
    assert_eq!(f64_special_to_f32(0x7FF0_0000_0000_0001), None);
}

#[test]
fn bits_left_above_a_resumed_state_are_or_ed_into_the_next_byte() {
    let mut w = BitWriter::from_state(Vec::<u8>::new(), 0b1111_0000, 4);
    w.write_bits_lsb(0b0101, 4).unwrap();
    assert_eq!(w.get_state(), (0, 0));
    assert_eq!(w.into_inner(), vec![0b1111_0000]);

    let mut w = BitWriter::from_state(Vec::<u8>::new(), 0b1000_0110, 1);
    w.write_bits_lsb(0b1, 2).unwrap();
    assert_eq!(w.get_state(), (0b1000_0110, 3));
    assert!(w.into_inner().is_empty());

    let mut w = BitWriter::from_state(Vec::<u8>::new(), 0b0000_1111, 4);
    w.write_bits_msb(0b1010, 4).unwrap();
    assert_eq!(w.into_inner(), vec![0b0000_1111]);
}

#[test]
fn a_full_pending_byte_goes_out_before_more_msb_bits() {
    let mut w = BitWriter::from_state(Vec::<u8>::new(), 0xAB, 8);
    w.write_bits_msb(1, 1).unwrap();
    assert_eq!(w.get_state(), (0x80, 1));
    assert_eq!(w.into_inner(), vec![0xAB]);

    let mut w = BitWriter::from_state(Vec::<u8>::new(), 0x12, 9);
    w.write_bits_lsb(5, 0).unwrap();
    w.write_bits_msb(5, 0).unwrap();
    assert_eq!(w.get_state(), (0x12, 9));
}

#[test]
fn slice_writer_keeps_its_place_when_a_write_does_not_fit() {
    let mut destination = [0u8; 100];
    {
        let mut writer = SliceWriter::new(&mut destination);
        assert_eq!(writer.write(&[1, 2, 3, 4, 5]), Ok(()));
        assert_eq!(writer.bytes_written(), 5);
        assert_eq!(writer.write(&[9u8; 96]), Err(EncodeError::UnexpectedEnd));
        assert_eq!(writer.bytes_written(), 5);
        assert_eq!(writer.write(&[7u8; 95]), Ok(()));
        assert_eq!(writer.bytes_written(), 100);
    }
    assert_eq!(&destination[0..6], &[1, 2, 3, 4, 5, 7]);
    assert_eq!(destination[99], 7);
}
