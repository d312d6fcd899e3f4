//! Strings, byte blobs, bigints, array and map lengths, and the generic
//! skip dispatcher.

use msgpack_codec::error::MsgPackError;
use msgpack_codec::read_decoder::ReadDecoder;
use msgpack_codec::write_encoder::WriteEncoder;
use msgpack_codec::write_sizer::WriteSizer;
use num_bigint::BigInt;
use std::str::FromStr;

fn encode_str(s: &str) -> Vec<u8> {
    let mut sizer = WriteSizer::new();
    sizer.write_string(s);
    let buf = vec![0u8; sizer.get_length() as usize];
    let mut enc = WriteEncoder::new(&buf);
    enc.write_string(s).unwrap();
    enc.get_buffer().clone()
}

fn encode_bytes(b: &[u8]) -> Vec<u8> {
    let mut sizer = WriteSizer::new();
    sizer.write_bytes(b).unwrap();
    let buf = vec![0u8; sizer.get_length() as usize];
    let mut enc = WriteEncoder::new(&buf);
    enc.write_bytes(b).unwrap();
    enc.get_buffer().clone()
}

#[test]
fn roundtrip_strings() {
    for s in ["", "a", "hello", "exactly-thirty-one-characters!!", "this one is thirty-two chars lo!"] {
        let bytes = encode_str(s);
        let mut dec = ReadDecoder::new(&bytes);
        assert_eq!(dec.read_string().unwrap(), s);
    }
}

#[test]
fn roundtrip_multibyte_string() {
    // The wrapper validates real UTF-8: a multibyte payload must survive.
    let s = "h\u{e9}llo \u{4e16}\u{754c}";
    let bytes = encode_str(s);
    let mut dec = ReadDecoder::new(&bytes);
    assert_eq!(dec.read_string().unwrap(), s);
}

#[test]
fn string_wire_shapes() {
    // Below 32 bytes the length packs into the lead byte.
    assert_eq!(encode_str("ab"), vec![0xa2, b'a', b'b']);
    // At 32 bytes the STR8 tag takes over.
    let long = "this one is thirty-two chars lo!";
    let bytes = encode_str(long);
    assert_eq!(bytes[0], 0xd9);
    assert_eq!(bytes[1], 32);
    assert_eq!(&bytes[2..], long.as_bytes());
    // Past 255 bytes the STR16 tag takes over.
    let very_long = "x".repeat(256);
    let bytes = encode_str(&very_long);
    assert_eq!(&bytes[..3], &[0xda, 0x01, 0x00]);
}

#[test]
fn string_length_reader() {
    let bytes = encode_str("hello");
    let mut dec = ReadDecoder::new(&bytes);
    assert_eq!(dec.read_string_length().unwrap(), 5);
}

#[test]
fn invalid_utf8_is_fatal() {
    // A fixed-string header promising two bytes, with a stray continuation
    // byte inside.
    let bytes = vec![0xa2, 0xff, 0x61];
    let mut dec = ReadDecoder::new(&bytes);
    assert_eq!(dec.read_string(), Err(MsgPackError::InvalidUtf8));
}

#[test]
fn roundtrip_bytes() {
    for b in [&[][..], &[1u8][..], &[0u8, 255, 7, 8][..]] {
        let bytes = encode_bytes(b);
        let mut dec = ReadDecoder::new(&bytes);
        assert_eq!(dec.read_bytes().unwrap(), b.to_vec());
    }
}

#[test]
fn empty_bytes_is_one_nil_byte() {
    // An empty blob is special-cased to a single NIL-equivalent byte.
    assert_eq!(encode_bytes(&[]), vec![0xc0]);
    let mut sizer = WriteSizer::new();
    sizer.write_bytes(&[]).unwrap();
    assert_eq!(sizer.get_length(), 1);
}

#[test]
fn bytes_length_uses_str8_even_when_short() {
    // Blobs never use the fixed-string window: one payload byte still gets
    // a two-byte STR8 prefix.
    assert_eq!(encode_bytes(&[9]), vec![0xd9, 1, 9]);
}

#[test]
fn roundtrip_bigint() {
    let v = BigInt::from_str("-123456789012345678901234567890123456789").unwrap();
    let mut sizer = WriteSizer::new();
    sizer.write_bigint(v.clone());
    let buf = vec![0u8; sizer.get_length() as usize];
    let mut enc = WriteEncoder::new(&buf);
    enc.write_bigint(v.clone()).unwrap();
    let mut dec = ReadDecoder::new(enc.get_buffer());
    assert_eq!(dec.read_bigint().unwrap(), v);
}

#[test]
fn bigint_travels_as_decimal_string() {
    let v = BigInt::from_str("12345").unwrap();
    let mut sizer = WriteSizer::new();
    sizer.write_bigint(v.clone());
    let buf = vec![0u8; sizer.get_length() as usize];
    let mut enc = WriteEncoder::new(&buf);
    enc.write_bigint(v).unwrap();
    let mut dec = ReadDecoder::new(enc.get_buffer());
    assert_eq!(dec.read_string().unwrap(), "12345");
}

#[test]
fn bigint_rejects_non_decimal_payload() {
    let bytes = encode_str("12a45");
    let mut dec = ReadDecoder::new(&bytes);
    assert_eq!(dec.read_bigint(), Err(MsgPackError::InvalidBigInt));
}

#[test]
fn array_length_tags() {
    // Fixed array.
    let mut dec = ReadDecoder::new(&[0x93]);
    assert_eq!(dec.read_array_length().unwrap(), 3);
    // ARRAY16.
    let mut dec = ReadDecoder::new(&[0xdc, 0x01, 0x00]);
    assert_eq!(dec.read_array_length().unwrap(), 256);
    // ARRAY32.
    let mut dec = ReadDecoder::new(&[0xdd, 0x00, 0x01, 0x00, 0x00]);
    assert_eq!(dec.read_array_length().unwrap(), 65536);
    // NIL reads as an empty array.
    let mut dec = ReadDecoder::new(&[0xc0]);
    assert_eq!(dec.read_array_length().unwrap(), 0);
}

#[test]
fn map_length_tags() {
    // A fixed-map byte 0x82 yields map length 2.
    let mut dec = ReadDecoder::new(&[0x82]);
    assert_eq!(dec.read_map_length().unwrap(), 2);
    // MAP32 with the 4-byte length 0x00010000 yields 65536.
    let mut dec = ReadDecoder::new(&[0xdf, 0x00, 0x01, 0x00, 0x00]);
    assert_eq!(dec.read_map_length().unwrap(), 65536);
    // MAP16.
    let mut dec = ReadDecoder::new(&[0xde, 0x00, 0x11]);
    assert_eq!(dec.read_map_length().unwrap(), 17);
    // There is no NIL shortcut for maps.
    let mut dec = ReadDecoder::new(&[0xc0]);
    assert_eq!(
        dec.read_map_length(),
        Err(MsgPackError::InvalidFormat { lead: 0xc0 })
    );
}

#[test]
fn map_length_roundtrip() {
    let mut sizer = WriteSizer::new();
    sizer.write_map_length(2);
    assert_eq!(sizer.get_length(), 1);
    let buf = vec![0u8; 1];
    let mut enc = WriteEncoder::new(&buf);
    enc.write_map_length(2).unwrap();
    assert_eq!(enc.get_buffer(), &vec![0x82]);
}

#[test]
fn array_length_roundtrip() {
    for n in [0u32, 15, 16, 65535, 65536] {
        let mut sizer = WriteSizer::new();
        sizer.write_array_length(n);
        let buf = vec![0u8; sizer.get_length() as usize];
        let mut enc = WriteEncoder::new(&buf);
        enc.write_array_length(n).unwrap();
        let mut dec = ReadDecoder::new(enc.get_buffer());
        assert_eq!(dec.read_array_length().unwrap(), n);
    }
}

#[test]
fn get_size_reports_nested_counts() {
    // A fixed map of two entries: four values remain to be discarded.
    let mut dec = ReadDecoder::new(&[0x82]);
    assert_eq!(dec.get_size().unwrap(), 4);
    // A fixed array of three: three values remain.
    let mut dec = ReadDecoder::new(&[0x93]);
    assert_eq!(dec.get_size().unwrap(), 3);
    // A fixed int is self-contained.
    let mut dec = ReadDecoder::new(&[0x07]);
    assert_eq!(dec.get_size().unwrap(), 0);
}

#[test]
fn skip_steps_over_a_value() {
    // An array of two small ints, then a trailing byte the skip must reach.
    let bytes = vec![0x92, 0x01, 0x02, 0x2a];
    let mut dec = ReadDecoder::new(&bytes);
    dec.skip().unwrap();
    assert_eq!(dec.read_u8().unwrap(), 42);
}

#[test]
fn skip_consumes_string_payloads() {
    let mut head = encode_str("hello");
    head.push(0x2a);
    let mut dec = ReadDecoder::new(&head);
    dec.skip().unwrap();
    assert_eq!(dec.read_u8().unwrap(), 42);
}

#[test]
fn is_next_string_peeks_without_consuming() {
    let bytes = encode_str("hi");
    let mut dec = ReadDecoder::new(&bytes);
    assert!(dec.is_next_string());
    assert_eq!(dec.read_string().unwrap(), "hi");
    let mut dec = ReadDecoder::new(&[0x05]);
    assert!(!dec.is_next_string());
}

#[test]
fn roundtrip_nullable_bigint() {
    let v = BigInt::from_str("987654321098765432109876543210").unwrap();
    let mut sizer = WriteSizer::new();
    sizer.write_nullable_bigint(None).unwrap();
    sizer.write_nullable_bigint(Some(v.clone())).unwrap();
    let buf = vec![0u8; sizer.get_length() as usize];
    let mut enc = WriteEncoder::new(&buf);
    enc.write_nullable_bigint(None).unwrap();
    enc.write_nullable_bigint(Some(v.clone())).unwrap();
    let mut dec = ReadDecoder::new(enc.get_buffer());
    assert_eq!(dec.read_nullable_bigint().unwrap(), None);
    assert_eq!(dec.read_nullable_bigint().unwrap(), Some(v));
}

#[test]
fn get_size_consumes_explicit_length_payloads() {
    // STR8 with a three-byte payload, then a trailing byte.
    let bytes = vec![0xd9, 3, b'a', b'b', b'c', 0x2a];
    let mut dec = ReadDecoder::new(&bytes);
    assert_eq!(dec.get_size().unwrap(), 0);
    assert_eq!(dec.read_u8().unwrap(), 42);
}

#[test]
fn get_size_rejects_reserved_lead() {
    let mut dec = ReadDecoder::new(&[0xc1]);
    assert_eq!(dec.get_size(), Err(MsgPackError::InvalidFormat { lead: 0xc1 }));
}

#[test]
fn skip_reports_the_failing_step() {
    // An array announcing two elements with only one present: the discard
    // loop runs off the end on the second.
    let mut dec = ReadDecoder::new(&[0x92, 0x01]);
    assert_eq!(
        dec.skip(),
        Err(MsgPackError::IndexOutOfRange { requested: 1, offset: 2, length: 2 })
    );
}

#[test]
fn bigint_payload_is_normalized_on_parse() {
    // The parser drops the plus sign, underscores and leading zeros; zero
    // never keeps a sign.
    let bytes = encode_str("-0_072");
    let mut dec = ReadDecoder::new(&bytes);
    assert_eq!(dec.read_bigint().unwrap().to_string(), "-72");
    let bytes = encode_str("+000");
    let mut dec = ReadDecoder::new(&bytes);
    assert_eq!(dec.read_bigint().unwrap().to_string(), "0");
}
