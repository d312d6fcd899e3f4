//! Round trips and wire shapes for the scalar types.

use msgpack_codec::error::MsgPackError;
use msgpack_codec::read_decoder::ReadDecoder;
use msgpack_codec::write_encoder::WriteEncoder;
use msgpack_codec::write_sizer::WriteSizer;

fn encode_i64(v: i64) -> Vec<u8> {
    let mut sizer = WriteSizer::new();
    sizer.write_i64(v);
    let buf = vec![0u8; sizer.get_length() as usize];
    let mut enc = WriteEncoder::new(&buf);
    enc.write_i64(v).unwrap();
    enc.get_buffer().clone()
}

fn encode_u64(v: u64) -> Vec<u8> {
    let mut sizer = WriteSizer::new();
    sizer.write_u64(v);
    let buf = vec![0u8; sizer.get_length() as usize];
    let mut enc = WriteEncoder::new(&buf);
    enc.write_u64(v).unwrap();
    enc.get_buffer().clone()
}

#[test]
fn roundtrip_bool() {
    for v in [true, false] {
        let mut sizer = WriteSizer::new();
        sizer.write_bool(v);
        assert_eq!(sizer.get_length(), 1);
        let buf = vec![0u8; 1];
        let mut enc = WriteEncoder::new(&buf);
        enc.write_bool(v).unwrap();
        let mut dec = ReadDecoder::new(enc.get_buffer());
        assert_eq!(dec.read_bool().unwrap(), v);
    }
}

#[test]
fn roundtrip_i64_all_widths() {
    for v in [
        0i64,
        1,
        -1,
        -32,
        -33,
        127,
        128,
        -128,
        -129,
        32767,
        -32768,
        32768,
        -32769,
        2147483647,
        -2147483648,
        2147483648,
        -2147483649,
        i64::MAX,
        i64::MIN,
    ] {
        let bytes = encode_i64(v);
        let mut dec = ReadDecoder::new(&bytes);
        assert_eq!(dec.read_i64().unwrap(), v);
    }
}

#[test]
fn roundtrip_u64_all_widths() {
    for v in [
        0u64,
        1,
        127,
        128,
        255,
        256,
        65535,
        65536,
        0xffff_ffff,
        0x1_0000_0000,
        u64::MAX,
    ] {
        let bytes = encode_u64(v);
        let mut dec = ReadDecoder::new(&bytes);
        assert_eq!(dec.read_u64().unwrap(), v);
    }
}

#[test]
fn roundtrip_narrow_ints() {
    let bytes = encode_i64(-100);
    let mut dec = ReadDecoder::new(&bytes);
    assert_eq!(dec.read_i8().unwrap(), -100i8);

    let bytes = encode_i64(-30000);
    let mut dec = ReadDecoder::new(&bytes);
    assert_eq!(dec.read_i16().unwrap(), -30000i16);

    let bytes = encode_i64(2_000_000_000);
    let mut dec = ReadDecoder::new(&bytes);
    assert_eq!(dec.read_i32().unwrap(), 2_000_000_000i32);

    let bytes = encode_u64(200);
    let mut dec = ReadDecoder::new(&bytes);
    assert_eq!(dec.read_u8().unwrap(), 200u8);

    let bytes = encode_u64(60000);
    let mut dec = ReadDecoder::new(&bytes);
    assert_eq!(dec.read_u16().unwrap(), 60000u16);

    let bytes = encode_u64(4_000_000_000);
    let mut dec = ReadDecoder::new(&bytes);
    assert_eq!(dec.read_u32().unwrap(), 4_000_000_000u32);
}

#[test]
fn fixed_int_boundaries() {
    // -32 still fits the negative fixed-int window: one byte, 0xe0.
    let bytes = encode_i64(-32);
    assert_eq!(bytes, vec![0xe0]);
    // -33 needs the INT8 tag: two bytes.
    let bytes = encode_i64(-33);
    assert_eq!(bytes, vec![0xd0, 0xdf]);
    // 127 is a positive fixed int: one byte.
    let bytes = encode_i64(127);
    assert_eq!(bytes, vec![0x7f]);
    // 128 no longer fits seven bits: at least two bytes.
    let bytes = encode_i64(128);
    assert!(bytes.len() >= 2);
    assert_eq!(bytes, vec![0xd1, 0x00, 0x80]);
}

#[test]
fn unsigned_wire_shapes() {
    assert_eq!(encode_u64(5), vec![0x05]);
    assert_eq!(encode_u64(128), vec![0xcc, 0x80]);
    assert_eq!(encode_u64(256), vec![0xcd, 0x01, 0x00]);
    assert_eq!(encode_u64(65536), vec![0xce, 0x00, 0x01, 0x00, 0x00]);
    assert_eq!(
        encode_u64(0x1_0000_0000),
        vec![0xcf, 0x00, 0x00, 0x00, 0x01, 0x00, 0x00, 0x00, 0x00]
    );
}

#[test]
fn roundtrip_float_bits() {
    let v32 = 3.5f32;
    let mut sizer = WriteSizer::new();
    sizer.write_f32_bits(v32.to_bits());
    assert_eq!(sizer.get_length(), 5);
    let buf = vec![0u8; 5];
    let mut enc = WriteEncoder::new(&buf);
    enc.write_f32_bits(v32.to_bits()).unwrap();
    let mut dec = ReadDecoder::new(enc.get_buffer());
    assert_eq!(f32::from_bits(dec.read_f32_bits().unwrap()), 3.5f32);

    let v64 = -1.25f64;
    let mut sizer = WriteSizer::new();
    sizer.write_f64_bits(v64.to_bits());
    assert_eq!(sizer.get_length(), 9);
    let buf = vec![0u8; 9];
    let mut enc = WriteEncoder::new(&buf);
    enc.write_f64_bits(v64.to_bits()).unwrap();
    let mut dec = ReadDecoder::new(enc.get_buffer());
    assert_eq!(f64::from_bits(dec.read_f64_bits().unwrap()), -1.25f64);
}

#[test]
fn float_wrong_tag_is_invalid_format() {
    let bytes = vec![0xcb, 0, 0, 0, 0, 0, 0, 0, 0];
    let mut dec = ReadDecoder::new(&bytes);
    assert_eq!(
        dec.read_f32_bits(),
        Err(MsgPackError::InvalidFormat { lead: 0xcb })
    );
}

#[test]
fn narrowing_overflow_reports_value_and_bits() {
    // The 64-bit value 300 does not fit eight signed bits.
    let bytes = encode_i64(300);
    let mut dec = ReadDecoder::new(&bytes);
    assert_eq!(
        dec.read_i8(),
        Err(MsgPackError::IntegerOverflow { value: 300, bits: 8 })
    );
    // 100 does.
    let bytes = encode_i64(100);
    let mut dec = ReadDecoder::new(&bytes);
    assert_eq!(dec.read_i8().unwrap(), 100);
    // The unsigned side mirrors it.
    let bytes = encode_u64(300);
    let mut dec = ReadDecoder::new(&bytes);
    assert_eq!(
        dec.read_u8(),
        Err(MsgPackError::UnsignedOverflow { value: 300, bits: 8 })
    );
}

#[test]
fn unsigned_read_rejects_negative_fixed_int() {
    let bytes = vec![0xe0];
    let mut dec = ReadDecoder::new(&bytes);
    assert_eq!(
        dec.read_u64(),
        Err(MsgPackError::NegativeValueForUnsigned { lead: 0xe0 })
    );
}

#[test]
fn bool_wrong_tag_is_invalid_format() {
    let bytes = vec![0x05];
    let mut dec = ReadDecoder::new(&bytes);
    assert_eq!(dec.read_bool(), Err(MsgPackError::InvalidFormat { lead: 0x05 }));
}

#[test]
fn roundtrip_nullable_float_bits() {
    let mut sizer = WriteSizer::new();
    sizer.write_nullable_f32_bits(None).unwrap();
    sizer.write_nullable_f64_bits(Some(0.5f64.to_bits())).unwrap();
    let buf = vec![0u8; sizer.get_length() as usize];
    let mut enc = WriteEncoder::new(&buf);
    enc.write_nullable_f32_bits(None).unwrap();
    enc.write_nullable_f64_bits(Some(0.5f64.to_bits())).unwrap();
    let mut dec = ReadDecoder::new(enc.get_buffer());
    assert_eq!(dec.read_nullable_f32_bits().unwrap(), None);
    assert_eq!(
        dec.read_nullable_f64_bits().unwrap().map(f64::from_bits),
        Some(0.5f64)
    );
}
