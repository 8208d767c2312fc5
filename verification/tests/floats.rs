use bincode_next::config::standard;
use bincode_next::de::cbor::f16_to_f32;
use bincode_next::de::read::SliceReader;
use bincode_next::de::{Decoder, DecoderImpl};
use bincode_next::enc::cbor::f32_to_f16;
use bincode_next::enc::{Encoder, EncoderImpl};
use bincode_next::error::DecodeError;
use bincode_next::float_bits::FloatBits;

fn encode_f32_with<C: bincode_next::config::Config>(config: C, v: f32) -> Vec<u8> {
    let mut encoder = EncoderImpl::new(Vec::<u8>::new(), config);
    encoder.encode_f32(v.to_bits()).unwrap();
    encoder.into_writer()
}

fn encode_f64_with<C: bincode_next::config::Config>(config: C, v: f64) -> Vec<u8> {
    let narrowed = {
        let f = v as f32;
        if f as f64 == v || v.is_nan() { Some(f.to_bits()) } else { None }
    };
    let mut encoder = EncoderImpl::new(Vec::<u8>::new(), config);
    encoder.encode_f64(v.to_bits(), narrowed).unwrap();
    encoder.into_writer()
}

fn decode_f32_with<C: bincode_next::config::Config>(config: C, bytes: &[u8]) -> Result<FloatBits, DecodeError> {
    let mut decoder = DecoderImpl::new(SliceReader::new(bytes), config, ());
    decoder.decode_f32()
}

fn decode_f64_with<C: bincode_next::config::Config>(config: C, bytes: &[u8]) -> Result<FloatBits, DecodeError> {
    let mut decoder = DecoderImpl::new(SliceReader::new(bytes), config, ());
    decoder.decode_f64()
}

#[test]
fn half_precision_narrowing_is_lossless() {
    assert_eq!(f32_to_f16(1.0f32.to_bits()), Some(0x3C00));
    assert_eq!(f32_to_f16((-2.0f32).to_bits()), Some(0xC000));
    assert_eq!(f32_to_f16(65504.0f32.to_bits()), Some(0x7BFF));
    assert_eq!(f32_to_f16(0.0f32.to_bits()), Some(0x0000));
    assert_eq!(f32_to_f16((-0.0f32).to_bits()), Some(0x8000));
    assert_eq!(f32_to_f16(f32::INFINITY.to_bits()), Some(0x7C00));
    // the smallest half-precision subnormal, 2^-24
    assert_eq!(f32_to_f16(2.0f32.powi(-24).to_bits()), Some(0x0001));
    assert_eq!(f32_to_f16(0.1f32.to_bits()), None);
    assert_eq!(f32_to_f16(65520.0f32.to_bits()), None);
    assert_eq!(f32_to_f16(1.0e-10f32.to_bits()), None);

    assert_eq!(f16_to_f32(0x3C00), 1.0f32.to_bits());
    assert_eq!(f16_to_f32(0x0001), 2.0f32.powi(-24).to_bits());
    assert_eq!(f16_to_f32(0x7E00), 0x7FC0_0000);
    for h in 0u16..=u16::MAX {
        assert_eq!(f32_to_f16(f16_to_f32(h)), Some(h), "half bits {h:#06x}");
    }
}

#[test]
fn floats_in_bincode_are_their_bits() {
    assert_eq!(encode_f32_with(standard(), 1.5), 1.5f32.to_le_bytes().to_vec());
    assert_eq!(encode_f32_with(standard().with_big_endian(), 1.5), 1.5f32.to_be_bytes().to_vec());
    assert_eq!(encode_f64_with(standard(), -0.25), (-0.25f64).to_le_bytes().to_vec());
    let bytes = encode_f64_with(standard(), 3.25);
    assert_eq!(decode_f64_with(standard(), &bytes), Ok(FloatBits::Double(3.25f64.to_bits())));
    assert_eq!(
        decode_f32_with(standard(), &[0, 0]),
        Err(DecodeError::UnexpectedEnd { additional: 2 })
    );
}

#[test]
fn cbor_writes_the_shortest_exact_float() {
    let cbor = standard().with_cbor_format();
    assert_eq!(encode_f32_with(cbor, 1.0), vec![0xF9, 0x3C, 0x00]);
    assert_eq!(encode_f32_with(cbor, 0.1), [vec![0xFA], 0.1f32.to_be_bytes().to_vec()].concat());
    assert_eq!(encode_f64_with(cbor, 1.5), vec![0xF9, 0x3E, 0x00]);
    assert_eq!(encode_f64_with(cbor, 100000.0), vec![0xFA, 0x47, 0xC3, 0x50, 0x00]);
    assert_eq!(encode_f64_with(cbor, 0.1), [vec![0xFB], 0.1f64.to_be_bytes().to_vec()].concat());
    assert_eq!(encode_f64_with(cbor, f64::INFINITY), vec![0xF9, 0x7C, 0x00]);
    assert_eq!(encode_f32_with(cbor, f32::NAN), vec![0xF9, 0x7E, 0x00]);
    assert_eq!(encode_f64_with(cbor, -f64::NAN), vec![0xF9, 0x7E, 0x00]);

    assert_eq!(decode_f32_with(cbor, &[0xF9, 0x3C, 0x00]), Ok(FloatBits::Half(0x3C00)));
    assert_eq!(
        decode_f64_with(cbor, &[0xFA, 0x47, 0xC3, 0x50, 0x00]),
        Ok(FloatBits::Single(100000.0f32.to_bits()))
    );
    assert_eq!(decode_f32_with(cbor, &[0xF5]), Err(DecodeError::UnexpectedEnd { additional: 4 }));
    assert_eq!(decode_f64_with(cbor, &[0x01]), Err(DecodeError::UnexpectedEnd { additional: 8 }));
    assert_eq!(decode_f32_with(cbor, &[0xFA, 0x00]), Err(DecodeError::UnexpectedEnd { additional: 3 }));
}

#[test]
fn cbor_floats_read_back_as_written() {
    let cbor = standard().with_cbor_format();
    for v in [0.0f32, 1.0, -2.5, 0.1, 3.4e38, 1.0e-40, f32::INFINITY, f32::NEG_INFINITY] {
        let bytes = encode_f32_with(cbor, v);
        let read = match decode_f32_with(cbor, &bytes).unwrap() {
            FloatBits::Half(h) => f32::from_bits(f16_to_f32(h)),
            FloatBits::Single(b) => f32::from_bits(b),
            FloatBits::Double(d) => f64::from_bits(d) as f32,
        };
        assert_eq!(read.to_bits(), v.to_bits(), "value {v}");
    }
}
