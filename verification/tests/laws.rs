use bincode_next::config::standard;
use bincode_next::de::bit_reader::BitReader;
use bincode_next::de::deterministic::DeterministicValidator;
use bincode_next::de::read::SliceReader;
use bincode_next::de::{Decoder, DecoderImpl};
use bincode_next::enc::bit_writer::BitWriter;
use bincode_next::enc::cbor::{encode_map_deterministic, encode_slice_deterministic};
use bincode_next::enc::EncoderImpl;
use bincode_next::error::DecodeError;
use bincode_next::{decode_from_slice, encode_to_vec};

#[test]
fn primitives_round_trip_under_every_configuration() {
    let configs = [
        standard(),
        standard().with_fixed_int_encoding(),
        standard().with_big_endian(),
        standard().with_cbor_format(),
        standard().with_deterministic_cbor(),
    ];
    for config in configs {
        for v in [0u64, 23, 24, 250, 251, 65_536, u64::MAX] {
            let bytes = encode_to_vec(v, config).unwrap();
            assert_eq!(decode_from_slice::<u64, _>(&bytes, config).unwrap(), (v, bytes.len()));
        }
        for v in [i128::MIN, -25, -1, 0, 1, i128::MAX] {
            let bytes = encode_to_vec(v, config).unwrap();
            assert_eq!(decode_from_slice::<i128, _>(&bytes, config).unwrap(), (v, bytes.len()));
        }
        for v in ['a', 'é', '€', '😀'] {
            let bytes = encode_to_vec(v, config).unwrap();
            assert_eq!(decode_from_slice::<char, _>(&bytes, config).unwrap(), (v, bytes.len()));
        }
        let v: Option<Result<u16, String>> = Some(Err("no".to_string()));
        let bytes = encode_to_vec(&v, config).unwrap();
        assert_eq!(decode_from_slice::<Option<Result<u16, String>>, _>(&bytes, config).unwrap().0, v);
    }
}

#[test]
fn bits_written_lsb_first_read_back() {
    let mut writer = BitWriter::new(Vec::<u8>::new());
    writer.write_bits_lsb(0b101, 3).unwrap();
    writer.write_bits_lsb(0x1F, 5).unwrap();
    writer.write_bits_lsb(0x2A5, 10).unwrap();
    writer.flush().unwrap();
    let bytes = writer.into_inner();
    assert_eq!(bytes[0], 0xFD);
    assert_eq!(bytes.len(), 3);
    let mut reader = BitReader::new(SliceReader::new(&bytes));
    assert_eq!(reader.read_bits_lsb(3).unwrap(), 0b101);
    assert_eq!(reader.read_bits_lsb(5).unwrap(), 0x1F);
    assert_eq!(reader.read_bits_lsb(10).unwrap(), 0x2A5);
}

#[test]
fn bits_written_msb_first_read_back() {
    let mut writer = BitWriter::new(Vec::<u8>::new());
    writer.write_bits_msb(0b101, 3).unwrap();
    writer.write_bits_msb(0b00001, 5).unwrap();
    writer.write_bits_msb(u64::MAX, 64).unwrap();
    writer.flush().unwrap();
    let bytes = writer.into_inner();
    assert_eq!(bytes[0], 0xA1);
    assert_eq!(bytes.len(), 9);
    let mut reader = BitReader::new(SliceReader::new(&bytes));
    assert_eq!(reader.read_bits_msb(3).unwrap(), 0b101);
    assert_eq!(reader.read_bits_msb(5).unwrap(), 1);
    assert_eq!(reader.read_bits_msb(64).unwrap(), u64::MAX);
    assert!(reader.read_bits_msb(1).is_err());
}

#[test]
fn validator_accepts_only_increasing_keys() {
    let mut v = DeterministicValidator::new();
    assert_eq!(v.validate_key_bytes(vec![1]), Ok(()));
    assert_eq!(v.validate_key_bytes(vec![0]), Err(DecodeError::InvalidMapOrder));
    assert_eq!(v.validate_key_bytes(vec![1]), Err(DecodeError::DuplicateMapKey));
    assert_eq!(v.validate_key_bytes(vec![1, 0]), Ok(()));
    assert_eq!(v.validate_key_bytes(vec![2]), Ok(()));
    let config = standard().with_deterministic_cbor();
    let mut v = DeterministicValidator::new();
    assert_eq!(v.validate_key(&config, &3u32), Ok(()));
    assert_eq!(v.validate_key(&config, &300u32), Ok(()));
    assert_eq!(v.validate_key(&config, &300u32), Err(DecodeError::DuplicateMapKey));
    assert_eq!(v.validate_key(&config, &4u32), Err(DecodeError::InvalidMapOrder));
}

#[test]
fn deterministic_cbor_sorts_map_keys_and_set_items() {
    let config = standard().with_deterministic_cbor();
    let mut encoder = EncoderImpl::new(Vec::<u8>::new(), config);
    encode_map_deterministic(&mut encoder, &[(3u32, true), (1u32, false)]).unwrap();
    assert_eq!(encoder.into_writer(), vec![0xA2, 0x01, 0xF4, 0x03, 0xF5]);
    let mut encoder = EncoderImpl::new(Vec::<u8>::new(), config);
    encode_slice_deterministic(&mut encoder, &[300u32, 3, 1]).unwrap();
    assert_eq!(encoder.into_writer(), vec![0x83, 0x01, 0x03, 0x19, 0x01, 0x2C]);
}

#[test]
fn fingerprinted_values_round_trip_and_other_schemas_are_refused() {
    let config = standard().with_fingerprint();
    let bytes = encode_to_vec(5u32, config).unwrap();
    assert_eq!(bytes.len(), 9);
    assert_eq!(bytes[8], 5);
    assert_eq!(decode_from_slice::<u32, _>(&bytes, config).unwrap(), (5, 9));
    let r = decode_from_slice::<i32, _>(&bytes, config);
    assert!(matches!(r, Err(DecodeError::SchemaMismatch { .. })));
    let plain = encode_to_vec(5u32, standard()).unwrap();
    assert_eq!(plain, vec![5]);
}

#[test]
fn claims_add_up_to_the_limit() {
    let config = standard().with_limit::<10>();
    let mut d = DecoderImpl::new(SliceReader::new(&[]), config, ());
    assert_eq!(d.claim_bytes_read(4), Ok(()));
    assert_eq!(d.claim_bytes_read(7), Err(DecodeError::LimitExceeded));
    assert_eq!(d.claim_bytes_read(6), Ok(()));
    assert_eq!(d.claim_bytes_read(1), Err(DecodeError::LimitExceeded));
    assert_eq!(d.claim_bytes_read(0), Ok(()));
    let mut free = DecoderImpl::new(SliceReader::new(&[]), standard(), ());
    assert_eq!(free.claim_bytes_read(usize::MAX), Ok(()));
    assert_eq!(free.claim_bytes_read(usize::MAX), Ok(()));
}

#[test]
fn pending_bits_after_a_run_of_writes() {
    let mut writer = BitWriter::new(Vec::<u8>::new());
    writer.write_bits_lsb(0b11, 2).unwrap();
    writer.write_bits_lsb(0x3FF, 10).unwrap();
    assert_eq!(writer.get_state(), (0b1111, 4));
    writer.flush().unwrap();
    assert_eq!(writer.into_inner().len(), 2);
    let mut writer = BitWriter::new(Vec::<u8>::new());
    writer.write_bits_msb(0b1, 1).unwrap();
    writer.write_bits_msb(0, 9).unwrap();
    assert_eq!(writer.get_state(), (0, 2));
    assert_eq!(writer.into_inner(), vec![0x80]);
}

#[test]
fn validator_run_from_the_docs() {
    let mut v = DeterministicValidator::new();
    assert_eq!(v.validate_key_bytes(vec![1, 2]), Ok(()));
    assert_eq!(v.validate_key_bytes(vec![1, 2]), Err(DecodeError::DuplicateMapKey));
    assert_eq!(v.validate_key_bytes(vec![1]), Err(DecodeError::InvalidMapOrder));
    assert_eq!(v.validate_key_bytes(vec![1, 3]), Ok(()));
}
