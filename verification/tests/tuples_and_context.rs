use bincode_next::config::standard;
use bincode_next::de::read::SliceReader;
use bincode_next::de::{Decode, Decoder, DecoderImpl};
use bincode_next::error::DecodeError;
use bincode_next::features::impl_std::{plan_write, WritePlan, IO_BUFFER_LEN};
use bincode_next::{decode_from_slice, encode_to_vec};

#[test]
fn tuples_are_their_fields_one_after_the_other() {
    let bytes = encode_to_vec((1u8, 300u16, "hi".to_string()), standard()).unwrap();
    assert_eq!(bytes, vec![1, 251, 44, 1, 2, b'h', b'i']);
    let (back, n) = decode_from_slice::<(u8, u16, String), _>(&bytes, standard()).unwrap();
    assert_eq!(back, (1u8, 300u16, "hi".to_string()));
    assert_eq!(n, 7);
}

#[test]
fn single_and_wide_tuples_round_trip() {
    let one = (42i64,);
    let bytes = encode_to_vec(one, standard()).unwrap();
    assert_eq!(bytes, vec![84]);
    assert_eq!(decode_from_slice::<(i64,), _>(&bytes, standard()).unwrap().0, one);

    let wide = (1u8, 2u16, 3u32, 4u64, 5u128, -6i8, -7i16, -8i32, -9i64, -10i128, true, 'x', (), 14usize, -15isize, 16u8);
    let bytes = encode_to_vec(wide, standard()).unwrap();
    type Wide = (u8, u16, u32, u64, u128, i8, i16, i32, i64, i128, bool, char, (), usize, isize, u8);
    let (back, n) = decode_from_slice::<Wide, _>(&bytes, standard()).unwrap();
    assert_eq!(n, bytes.len());
    assert_eq!(encode_to_vec(back, standard()).unwrap(), bytes);
    assert_eq!((back.0, back.4, back.9, back.11, back.15), (1u8, 5u128, -10i128, 'x', 16u8));
}

#[test]
fn tuple_with_a_bad_field_reports_that_field() {
    let r = decode_from_slice::<(u8, bool), _>(&[1u8, 7], standard());
    assert_eq!(r, Err(DecodeError::InvalidBooleanValue(7)));
}

#[test]
fn decoding_through_a_context_reads_the_same_bytes() {
    let bytes = [3u8, 4, 5];
    let mut decoder = DecoderImpl::new(SliceReader::new(&bytes), standard(), ());
    {
        let mut with = decoder.with_context(9u32);
        assert_eq!(*with.context(), 9);
        let a = <u8 as Decode<u32>>::decode(&mut with).unwrap();
        assert_eq!(a, 3);
        *with.context() = 10;
        assert_eq!(with.context, 10);
    }
    let b = <u8 as Decode<()>>::decode(&mut decoder).unwrap();
    assert_eq!(b, 4);
    let c = <(u8,) as Decode<()>>::decode(&mut decoder).unwrap();
    assert_eq!(c, (5,));
}

#[test]
fn buffered_writes_are_planned_by_what_fits() {
    assert_eq!(plan_write(0, 10, IO_BUFFER_LEN), WritePlan::Append);
    assert_eq!(plan_write(2040, 8, IO_BUFFER_LEN), WritePlan::Append);
    assert_eq!(plan_write(2040, 9, IO_BUFFER_LEN), WritePlan::FlushThenBuffer);
    assert_eq!(plan_write(10, 2048, IO_BUFFER_LEN), WritePlan::FlushThenWrite);
    assert_eq!(plan_write(0, 4096, IO_BUFFER_LEN), WritePlan::FlushThenWrite);
}

#[test]
fn readers_and_writers_can_be_lent() {
    use_lent_reader_and_writer();
}

fn use_lent_reader_and_writer() {
    let mut buffer = [0u8; 8];
    let mut writer = bincode_next::enc::write::SliceWriter::new(&mut buffer);
    bincode_next::encode_into_writer(300u16, &mut writer, standard()).unwrap();
    bincode_next::encode_into_writer(true, &mut writer, standard()).unwrap();
    assert_eq!(writer.bytes_written(), 4);
    assert_eq!(&buffer[..4], &[251, 44, 1, 1]);
    let mut reader = SliceReader::new(&buffer);
    let a: u16 = bincode_next::decode_from_reader(&mut reader, standard()).unwrap();
    let b: bool = bincode_next::decode_from_reader(&mut reader, standard()).unwrap();
    assert_eq!((a, b), (300, true));
    assert_eq!(reader.remaining(), 4);
}
