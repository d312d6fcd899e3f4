//! Schema-driven array and map traversal through per-element readers.

use msgpack_codec::error::MsgPackError;
use msgpack_codec::read_decoder::{ReadDecoder, ReadElement};
use msgpack_codec::write_encoder::WriteEncoder;
use msgpack_codec::write_sizer::WriteSizer;

struct U8Reader;

impl ReadElement for U8Reader {
    type Elem = u8;

    fn read_element(&mut self, dec: &mut ReadDecoder) -> Result<u8, MsgPackError> {
        dec.read_u8()
    }
}

struct StringReader;

impl ReadElement for StringReader {
    type Elem = String;

    fn read_element(&mut self, dec: &mut ReadDecoder) -> Result<String, MsgPackError> {
        dec.read_string()
    }
}

#[test]
fn read_array_collects_elements_in_order() {
    let bytes = vec![0x93, 0x01, 0x02, 0x03];
    let mut dec = ReadDecoder::new(&bytes);
    assert_eq!(dec.read_array(&mut U8Reader).unwrap(), vec![1, 2, 3]);
}

#[test]
fn read_array_of_nil_is_empty() {
    let mut dec = ReadDecoder::new(&[0xc0]);
    assert_eq!(dec.read_array(&mut U8Reader).unwrap(), Vec::<u8>::new());
}

#[test]
fn read_array_stops_at_first_failing_element() {
    // Three announced elements, the second one a bool tag where an
    // unsigned integer is expected.
    let bytes = vec![0x93, 0x01, 0xc3, 0x03];
    let mut dec = ReadDecoder::new(&bytes);
    assert_eq!(
        dec.read_array(&mut U8Reader),
        Err(MsgPackError::InvalidFormat { lead: 0xc3 })
    );
}

#[test]
fn read_array_rejects_a_bad_header() {
    let mut dec = ReadDecoder::new(&[0xc3]);
    assert_eq!(
        dec.read_array(&mut U8Reader),
        Err(MsgPackError::InvalidFormat { lead: 0xc3 })
    );
}

#[test]
fn read_map_collects_entries_in_order() {
    // A fixed map of two entries: u8 keys, string values.
    let mut sizer = WriteSizer::new();
    sizer.write_map_length(2);
    sizer.write_u8(1);
    sizer.write_string("one");
    sizer.write_u8(2);
    sizer.write_string("two");
    let buf = vec![0u8; sizer.get_length() as usize];
    let mut enc = WriteEncoder::new(&buf);
    enc.write_map_length(2).unwrap();
    enc.write_u8(1).unwrap();
    enc.write_string("one").unwrap();
    enc.write_u8(2).unwrap();
    enc.write_string("two").unwrap();

    let mut dec = ReadDecoder::new(enc.get_buffer());
    let entries = dec.read_map(&mut U8Reader, &mut StringReader).unwrap();
    assert_eq!(
        entries,
        vec![(1u8, String::from("one")), (2u8, String::from("two"))]
    );
}

#[test]
fn read_map_has_no_nil_shortcut() {
    let mut dec = ReadDecoder::new(&[0xc0]);
    assert_eq!(
        dec.read_map(&mut U8Reader, &mut U8Reader),
        Err(MsgPackError::InvalidFormat { lead: 0xc0 })
    );
}

#[test]
fn read_nullable_array_distinguishes_absent_from_empty() {
    // NIL: absent, one byte consumed.
    let bytes = vec![0xc0, 0x2a];
    let mut dec = ReadDecoder::new(&bytes);
    assert_eq!(dec.read_nullable_array(&mut U8Reader).unwrap(), None);
    assert_eq!(dec.read_u8().unwrap(), 42);
    // An empty fixed array: present and empty.
    let mut dec = ReadDecoder::new(&[0x90]);
    assert_eq!(
        dec.read_nullable_array(&mut U8Reader).unwrap(),
        Some(Vec::<u8>::new())
    );
}

#[test]
fn read_nullable_map_distinguishes_absent_from_present() {
    let mut dec = ReadDecoder::new(&[0xc0]);
    assert_eq!(
        dec.read_nullable_map(&mut U8Reader, &mut U8Reader).unwrap(),
        None
    );
    // A one-entry map of u8 to u8.
    let bytes = vec![0x81, 0x07, 0x09];
    let mut dec = ReadDecoder::new(&bytes);
    assert_eq!(
        dec.read_nullable_map(&mut U8Reader, &mut U8Reader).unwrap(),
        Some(vec![(7u8, 9u8)])
    );
}
