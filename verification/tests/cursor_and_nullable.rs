//! The cursor's bounds discipline, the nullable wrappers, and the
//! sizer/encoder agreement over a mixed value graph.

use msgpack_codec::data_view::DataView;
use msgpack_codec::error::MsgPackError;
use msgpack_codec::nullable::Nullable;
use msgpack_codec::read_decoder::ReadDecoder;
use msgpack_codec::utils::BLOCK_MAX_SIZE;
use msgpack_codec::write_encoder::WriteEncoder;
use msgpack_codec::write_sizer::WriteSizer;

#[test]
fn new_rejects_oversized_buffer() {
    let buf = vec![0u8; BLOCK_MAX_SIZE + 1];
    assert_eq!(
        DataView::new(&buf).err().unwrap(),
        MsgPackError::InvalidLength { length: BLOCK_MAX_SIZE + 1 }
    );
    // At the bound itself construction succeeds.
    let buf = vec![0u8; 4];
    assert!(DataView::new(&buf).is_ok());
}

#[test]
fn bounds_fail_exactly_at_the_window_end() {
    let buf = [1u8, 2, 3, 4];
    let mut view = DataView::new(&buf).unwrap();
    // Four bytes fit exactly.
    assert_eq!(view.get_bytes(4).unwrap(), vec![1, 2, 3, 4]);
    // A fifth does not: offset 4, requested 1, length 4.
    assert_eq!(
        view.get_bytes(1),
        Err(MsgPackError::IndexOutOfRange { requested: 1, offset: 4, length: 4 })
    );

    let mut view = DataView::new(&buf).unwrap();
    // discard of exactly the window is fine; one more is not.
    view.discard(4).unwrap();
    assert_eq!(
        view.discard(1),
        Err(MsgPackError::IndexOutOfRange { requested: 1, offset: 4, length: 4 })
    );
}

#[test]
fn fixed_width_reads_are_big_endian() {
    let buf = [0x12u8, 0x34, 0x56, 0x78, 0x9a, 0xbc, 0xde, 0xf0];
    let mut view = DataView::new(&buf).unwrap();
    assert_eq!(view.get_u16().unwrap(), 0x1234);
    let mut view = DataView::new(&buf).unwrap();
    assert_eq!(view.get_u32().unwrap(), 0x1234_5678);
    let mut view = DataView::new(&buf).unwrap();
    assert_eq!(view.get_u64().unwrap(), 0x1234_5678_9abc_def0);
    let mut view = DataView::new(&[0xffu8, 0xfe]).unwrap();
    assert_eq!(view.get_i16().unwrap(), -2);
    let mut view = DataView::new(&[0x80u8]).unwrap();
    assert_eq!(view.get_i8().unwrap(), -128);
}

#[test]
fn fixed_width_writes_are_big_endian() {
    let buf = [0u8; 8];
    let mut view = DataView::new(&buf).unwrap();
    view.set_u32(0x0102_0304).unwrap();
    view.set_i32(-2).unwrap();
    assert_eq!(view.buffer, vec![1, 2, 3, 4, 0xff, 0xff, 0xff, 0xfe]);
}

#[test]
fn peek_does_not_advance() {
    let buf = [9u8, 7];
    let view = DataView::new(&buf).unwrap();
    assert_eq!(view.peek_u8().unwrap(), 9);
    assert_eq!(view.peek_u8().unwrap(), 9);
}

#[test]
fn set_bytes_writes_in_place() {
    let buf = [0u8; 5];
    let mut view = DataView::new(&buf).unwrap();
    view.discard(1).unwrap();
    view.set_bytes(&[7, 8]).unwrap();
    assert_eq!(view.buffer, vec![0, 7, 8, 0, 0]);
    // The buffer never grows: a write past the end is refused.
    assert_eq!(
        view.set_bytes(&[1, 2, 3]),
        Err(MsgPackError::IndexOutOfRange { requested: 3, offset: 3, length: 5 })
    );
}

#[test]
fn nullable_reader_absent_advances_one_byte() {
    // A NIL head yields absence after exactly one byte: the next value is
    // reachable right behind it.
    let bytes = vec![0xc0, 0x05];
    let mut dec = ReadDecoder::new(&bytes);
    assert_eq!(dec.read_nullable_i32().unwrap(), None);
    assert_eq!(dec.read_u8().unwrap(), 5);
}

#[test]
fn nullable_reader_present_decodes_full_width() {
    // A full-width INT32 encoding of 70000, then a trailing byte.
    let bytes = vec![0xd2, 0x00, 0x01, 0x11, 0x70, 0x2a];
    let mut dec = ReadDecoder::new(&bytes);
    assert_eq!(dec.read_nullable_i32().unwrap(), Some(70000));
    assert_eq!(dec.read_u8().unwrap(), 42);
}

#[test]
fn nullable_writers_emit_nil_for_absent() {
    let mut sizer = WriteSizer::new();
    sizer.write_nullable_u16(None).unwrap();
    sizer.write_nullable_u16(Some(300)).unwrap();
    let buf = vec![0u8; sizer.get_length() as usize];
    let mut enc = WriteEncoder::new(&buf);
    enc.write_nullable_u16(None).unwrap();
    enc.write_nullable_u16(Some(300)).unwrap();
    assert_eq!(enc.get_buffer(), &vec![0xc0, 0xcd, 0x01, 0x2c]);
    let mut dec = ReadDecoder::new(enc.get_buffer());
    assert_eq!(dec.read_nullable_u16().unwrap(), None);
    assert_eq!(dec.read_nullable_u16().unwrap(), Some(300));
}

#[test]
fn nullable_roundtrip_string_and_bytes() {
    let mut sizer = WriteSizer::new();
    sizer.write_nullable_string(None).unwrap();
    sizer.write_nullable_string(Some("hey")).unwrap();
    sizer.write_nullable_bytes(Some(vec![1, 2])).unwrap();
    let buf = vec![0u8; sizer.get_length() as usize];
    let mut enc = WriteEncoder::new(&buf);
    enc.write_nullable_string(None).unwrap();
    enc.write_nullable_string(Some("hey")).unwrap();
    enc.write_nullable_bytes(Some(vec![1, 2])).unwrap();
    let mut dec = ReadDecoder::new(enc.get_buffer());
    assert_eq!(dec.read_nullable_string().unwrap(), None);
    assert_eq!(dec.read_nullable_string().unwrap(), Some(String::from("hey")));
    assert_eq!(dec.read_nullable_bytes().unwrap(), Some(vec![1, 2]));
}

#[test]
fn sizer_and_encoder_agree_on_a_mixed_graph() {
    // The central agreement: a buffer sized by one pass is filled exactly
    // by the other.
    let mut sizer = WriteSizer::new();
    sizer.write_nil();
    sizer.write_bool(true);
    sizer.write_i64(-5_000_000_000);
    sizer.write_u64(77);
    sizer.write_string("summary");
    sizer.write_bytes(&[1, 2, 3]).unwrap();
    sizer.write_array_length(3);
    sizer.write_map_length(20);
    sizer.write_f64_bits(2.5f64.to_bits());
    sizer.write_nullable_i8(Some(-7)).unwrap();
    let total = sizer.get_length() as usize;

    let buf = vec![0u8; total];
    let mut enc = WriteEncoder::new(&buf);
    enc.write_nil().unwrap();
    enc.write_bool(true).unwrap();
    enc.write_i64(-5_000_000_000).unwrap();
    enc.write_u64(77).unwrap();
    enc.write_string("summary").unwrap();
    enc.write_bytes(&[1, 2, 3]).unwrap();
    enc.write_array_length(3).unwrap();
    enc.write_map_length(20).unwrap();
    enc.write_f64_bits(2.5f64.to_bits()).unwrap();
    enc.write_nullable_i8(Some(-7)).unwrap();

    // Every single write fit, and one more byte would not.
    assert_eq!(
        enc.write_nil(),
        Err(MsgPackError::IndexOutOfRange { requested: 1, offset: total, length: total })
    );

    // The whole graph reads back in order.
    let mut dec = ReadDecoder::new(enc.get_buffer());
    assert!(dec.is_next_nil());
    assert!(dec.read_bool().unwrap());
    assert_eq!(dec.read_i64().unwrap(), -5_000_000_000);
    assert_eq!(dec.read_u64().unwrap(), 77);
    assert_eq!(dec.read_string().unwrap(), "summary");
    assert_eq!(dec.read_bytes().unwrap(), vec![1, 2, 3]);
    assert_eq!(dec.read_array_length().unwrap(), 3);
    assert_eq!(dec.read_map_length().unwrap(), 20);
    assert_eq!(f64::from_bits(dec.read_f64_bits().unwrap()), 2.5);
    assert_eq!(dec.read_nullable_i8().unwrap(), Some(-7));
}

#[test]
fn encoder_refuses_a_short_buffer_untouched() {
    let buf = vec![0u8; 2];
    let mut enc = WriteEncoder::new(&buf);
    assert_eq!(
        enc.write_u32(70000),
        Err(MsgPackError::IndexOutOfRange { requested: 5, offset: 0, length: 2 })
    );
    assert_eq!(enc.get_buffer(), &vec![0, 0]);
}

#[test]
fn nullable_wrapper_semantics() {
    let mut n: Nullable<i32> = Nullable::from_value(7);
    assert!(!n.is_null());
    assert_eq!(*n.get_value(), 7);
    n.constructor();
    assert!(n.is_null());
    // Setting a value clears the null flag.
    n.set_value(9);
    assert!(!n.is_null());
    assert_eq!(*n.get_value(), 9);
    let absent: Nullable<i32> = Nullable::from_null();
    assert!(absent.is_null());
}

#[test]
fn nullable_equality() {
    // Two nulls are equal regardless of payload.
    let mut a: Nullable<i32> = Nullable::from_value(1);
    let mut b: Nullable<i32> = Nullable::from_value(2);
    a.constructor();
    b.constructor();
    assert!(a == b);
    // A null and a non-null are never equal.
    let c: Nullable<i32> = Nullable::from_value(1);
    assert!(a != c);
    // Non-nulls compare by payload.
    let d: Nullable<i32> = Nullable::from_value(1);
    assert!(c == d);
    let e: Nullable<i32> = Nullable::from_value(3);
    assert!(c != e);
}

#[test]
fn to_string_placeholder() {
    assert_eq!(DataView::to_string(), "[object DataView");
}
