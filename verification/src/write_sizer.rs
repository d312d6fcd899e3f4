//! The size-computing encoder: mirrors every write operation but only
//! accumulates a byte count, using the exact MessagePack length rules.
//!
//! Each operation's contract adds the `size_*` count of [`crate::wire`],
//! and the lemmas there prove every such count equal to the length of the
//! encoding the byte-writing encoder emits — the agreement that lets a
//! sizer-measured buffer be filled exactly.

use vstd::prelude::*;

use crate::bigint;
use crate::wire;
use vstd::string::StringSliceAdditionalSpecFns;

verus! {

/// A running byte total; it touches no buffer and is discarded after one
/// pass.
pub struct WriteSizer {
    pub length: u64,
}

impl WriteSizer {
    /// A fresh sizer with nothing counted.
    pub fn new() -> (r: WriteSizer)
        ensures
            r.length == 0,
    {
        WriteSizer { length: 0 }
    }

    /// The total number of bytes counted so far.
    pub fn get_length(&self) -> (r: u64)
        ensures
            r == self.length,
    {
        self.length
    }

    pub fn write_nil(&mut self)
        requires
            old(self).length + 1 <= u64::MAX,
        ensures
            final(self).length == old(self).length + wire::enc_nil().len(),
    {
        self.length = self.length + 1;
    }

    pub fn write_bool(&mut self, value: bool)
        requires
            old(self).length + 1 <= u64::MAX,
        ensures
            final(self).length == old(self).length + wire::enc_bool(value).len(),
    {
        let _ = value;
        self.length = self.length + 1;
    }

    pub fn write_i64(&mut self, value: i64)
        requires
            old(self).length + 9 <= u64::MAX,
        ensures
            final(self).length == old(self).length + wire::size_i64(value as int),
    {
        if value >= -32 && value < 128 {
            self.length = self.length + 1;
        } else if value < 128 && value >= -128 {
            self.length = self.length + 2;
        } else if value < 32768 && value >= -32768 {
            self.length = self.length + 3;
        } else if value < 0x8000_0000 && value >= -0x8000_0000 {
            self.length = self.length + 5;
        } else {
            self.length = self.length + 9;
        }
    }

    pub fn write_i8(&mut self, value: i8)
        requires
            old(self).length + 9 <= u64::MAX,
        ensures
            final(self).length == old(self).length + wire::size_i64(value as int),
    {
        self.write_i64(value as i64);
    }

    pub fn write_i16(&mut self, value: i16)
        requires
            old(self).length + 9 <= u64::MAX,
        ensures
            final(self).length == old(self).length + wire::size_i64(value as int),
    {
        self.write_i64(value as i64);
    }

    pub fn write_i32(&mut self, value: i32)
        requires
            old(self).length + 9 <= u64::MAX,
        ensures
            final(self).length == old(self).length + wire::size_i64(value as int),
    {
        self.write_i64(value as i64);
    }

    pub fn write_u64(&mut self, value: u64)
        requires
            old(self).length + 9 <= u64::MAX,
        ensures
            final(self).length == old(self).length + wire::size_u64(value as nat),
    {
        if value < 128 {
            self.length = self.length + 1;
        } else if value < 256 {
            self.length = self.length + 2;
        } else if value < 65536 {
            self.length = self.length + 3;
        } else if value < 0x1_0000_0000 {
            self.length = self.length + 5;
        } else {
            self.length = self.length + 9;
        }
    }

    pub fn write_u8(&mut self, value: u8)
        requires
            old(self).length + 9 <= u64::MAX,
        ensures
            final(self).length == old(self).length + wire::size_u64(value as nat),
    {
        self.write_u64(value as u64);
    }

    pub fn write_u16(&mut self, value: u16)
        requires
            old(self).length + 9 <= u64::MAX,
        ensures
            final(self).length == old(self).length + wire::size_u64(value as nat),
    {
        self.write_u64(value as u64);
    }

    pub fn write_u32(&mut self, value: u32)
        requires
            old(self).length + 9 <= u64::MAX,
        ensures
            final(self).length == old(self).length + wire::size_u64(value as nat),
    {
        self.write_u64(value as u64);
    }

    /// Counts a 32-bit float: tag plus payload, always five bytes.
    pub fn write_f32_bits(&mut self, bits: u32)
        requires
            old(self).length + 5 <= u64::MAX,
        ensures
            final(self).length == old(self).length + wire::enc_f32_bits(bits as nat).len(),
    {
        proof {
            wire::lemma_be_bytes_len(bits as nat, 4);
        }
        let _ = bits;
        self.length = self.length + 5;
    }

    /// Counts a 64-bit float: tag plus payload, always nine bytes.
    pub fn write_f64_bits(&mut self, bits: u64)
        requires
            old(self).length + 9 <= u64::MAX,
        ensures
            final(self).length == old(self).length + wire::enc_f64_bits(bits as nat).len(),
    {
        proof {
            wire::lemma_be_bytes_len(bits as nat, 8);
        }
        let _ = bits;
        self.length = self.length + 9;
    }

    /// Counts a nullable 32-bit float: one NIL byte when absent.
    pub fn write_nullable_f32_bits(&mut self, bits: Option<u32>) -> (r: Result<
        (),
        crate::error::MsgPackError,
    >)
        requires
            old(self).length + 9 <= u64::MAX,
        ensures
            final(self).length == old(self).length + (match bits {
                Some(v) => wire::enc_f32_bits(v as nat).len(),
                None => wire::enc_nil().len(),
            }),
            r is Ok,
    {
        match bits {
            None => self.write_nil(),
            Some(v) => self.write_f32_bits(v),
        }
        Ok(())
    }

    /// Counts a nullable 64-bit float: one NIL byte when absent.
    pub fn write_nullable_f64_bits(&mut self, bits: Option<u64>) -> (r: Result<
        (),
        crate::error::MsgPackError,
    >)
        requires
            old(self).length + 9 <= u64::MAX,
        ensures
            final(self).length == old(self).length + (match bits {
                Some(v) => wire::enc_f64_bits(v as nat).len(),
                None => wire::enc_nil().len(),
            }),
            r is Ok,
    {
        match bits {
            None => self.write_nil(),
            Some(v) => self.write_f64_bits(v),
        }
        Ok(())
    }

    pub fn write_string_length(&mut self, length: u32)
        requires
            old(self).length + 5 <= u64::MAX,
        ensures
            final(self).length == old(self).length + wire::size_str_len(length as nat),
    {
        if length < 32 {
            self.length = self.length + 1;
        } else if length <= 0xff {
            self.length = self.length + 2;
        } else if length <= 0xffff {
            self.length = self.length + 3;
        } else {
            self.length = self.length + 5;
        }
    }

    pub fn write_string(&mut self, value: &str)
        requires
            old(self).length + 5 + value.spec_bytes().len() <= u64::MAX,
            value.spec_bytes().len() <= u32::MAX,
        ensures
            final(self).length == old(self).length + wire::size_string(value.spec_bytes().len()),
    {
        let n = value.len();
        self.write_string_length(n as u32);
        self.length = self.length + (n as u64);
    }

    pub fn write_bytes_length(&mut self, length: u32)
        requires
            old(self).length + 5 <= u64::MAX,
        ensures
            final(self).length == old(self).length + wire::size_bytes_len(length as nat),
    {
        if length <= 0xff {
            self.length = self.length + 2;
        } else if length <= 0xffff {
            self.length = self.length + 3;
        } else {
            self.length = self.length + 5;
        }
    }

    pub fn write_bytes(&mut self, value: &[u8]) -> (r: Result<(), crate::error::MsgPackError>)
        requires
            old(self).length + 5 + value@.len() <= u64::MAX,
            value@.len() <= u32::MAX,
        ensures
            final(self).length == old(self).length + wire::size_bytes(value@.len()),
            r is Ok,
    {
        if value.len() == 0 {
            self.length = self.length + 1;
            return Ok(());
        }
        let n = value.len();
        self.write_bytes_length(n as u32);
        self.length = self.length + (n as u64);
        Ok(())
    }

    pub fn write_bigint(&mut self, value: num_bigint::BigInt)
        requires
            old(self).length + 5 + vstd::utf8::encode_utf8(bigint::bigint_digits(value)).len()
                <= u64::MAX,
            vstd::utf8::encode_utf8(bigint::bigint_digits(value)).len() <= u32::MAX,
        ensures
            final(self).length == old(self).length + wire::size_string(
                vstd::utf8::encode_utf8(bigint::bigint_digits(value)).len(),
            ),
            bigint::is_decimal_seq(bigint::bigint_digits(value)),
            bigint::canonical_digits(bigint::bigint_digits(value)) == bigint::bigint_digits(value),
    {
        let val_str = bigint::bigint_to_decimal(&value);
        self.write_string(val_str.as_str());
    }

    pub fn write_array_length(&mut self, length: u32)
        requires
            old(self).length + 5 <= u64::MAX,
        ensures
            final(self).length == old(self).length + wire::size_arr_len(length as nat),
    {
        if length < 16 {
            self.length = self.length + 1;
        } else if length <= 0xffff {
            self.length = self.length + 3;
        } else {
            self.length = self.length + 5;
        }
    }

    pub fn write_map_length(&mut self, length: u32)
        requires
            old(self).length + 5 <= u64::MAX,
        ensures
            final(self).length == old(self).length + wire::size_map_len(length as nat),
    {
        if length < 16 {
            self.length = self.length + 1;
        } else if length <= 0xffff {
            self.length = self.length + 3;
        } else {
            self.length = self.length + 5;
        }
    }

    pub fn write_nullable_bool(&mut self, value: Option<bool>) -> (r: Result<
        (),
        crate::error::MsgPackError,
    >)
        requires
            old(self).length + 1 <= u64::MAX,
        ensures
            final(self).length == old(self).length + (match value {
                Some(v) => wire::enc_bool(v).len(),
                None => wire::enc_nil().len(),
            }),
            r is Ok,
    {
        match value {
            None => self.write_nil(),
            Some(v) => self.write_bool(v),
        }
        Ok(())
    }

    pub fn write_nullable_i8(&mut self, value: Option<i8>) -> (r: Result<
        (),
        crate::error::MsgPackError,
    >)
        requires
            old(self).length + 9 <= u64::MAX,
        ensures
            final(self).length == old(self).length + (match value {
                Some(v) => wire::size_i64(v as int),
                None => wire::enc_nil().len(),
            }),
            r is Ok,
    {
        match value {
            None => self.write_nil(),
            Some(v) => self.write_i8(v),
        }
        Ok(())
    }

    pub fn write_nullable_i16(&mut self, value: Option<i16>) -> (r: Result<
        (),
        crate::error::MsgPackError,
    >)
        requires
            old(self).length + 9 <= u64::MAX,
        ensures
            final(self).length == old(self).length + (match value {
                Some(v) => wire::size_i64(v as int),
                None => wire::enc_nil().len(),
            }),
            r is Ok,
    {
        match value {
            None => self.write_nil(),
            Some(v) => self.write_i16(v),
        }
        Ok(())
    }

    pub fn write_nullable_i32(&mut self, value: Option<i32>) -> (r: Result<
        (),
        crate::error::MsgPackError,
    >)
        requires
            old(self).length + 9 <= u64::MAX,
        ensures
            final(self).length == old(self).length + (match value {
                Some(v) => wire::size_i64(v as int),
                None => wire::enc_nil().len(),
            }),
            r is Ok,
    {
        match value {
            None => self.write_nil(),
            Some(v) => self.write_i32(v),
        }
        Ok(())
    }

    pub fn write_nullable_i64(&mut self, value: Option<i64>) -> (r: Result<
        (),
        crate::error::MsgPackError,
    >)
        requires
            old(self).length + 9 <= u64::MAX,
        ensures
            final(self).length == old(self).length + (match value {
                Some(v) => wire::size_i64(v as int),
                None => wire::enc_nil().len(),
            }),
            r is Ok,
    {
        match value {
            None => self.write_nil(),
            Some(v) => self.write_i64(v),
        }
        Ok(())
    }

    pub fn write_nullable_u8(&mut self, value: Option<u8>) -> (r: Result<
        (),
        crate::error::MsgPackError,
    >)
        requires
            old(self).length + 9 <= u64::MAX,
        ensures
            final(self).length == old(self).length + (match value {
                Some(v) => wire::size_u64(v as nat),
                None => wire::enc_nil().len(),
            }),
            r is Ok,
    {
        match value {
            None => self.write_nil(),
            Some(v) => self.write_u8(v),
        }
        Ok(())
    }

    pub fn write_nullable_u16(&mut self, value: Option<u16>) -> (r: Result<
        (),
        crate::error::MsgPackError,
    >)
        requires
            old(self).length + 9 <= u64::MAX,
        ensures
            final(self).length == old(self).length + (match value {
                Some(v) => wire::size_u64(v as nat),
                None => wire::enc_nil().len(),
            }),
            r is Ok,
    {
        match value {
            None => self.write_nil(),
            Some(v) => self.write_u16(v),
        }
        Ok(())
    }

    pub fn write_nullable_u32(&mut self, value: Option<u32>) -> (r: Result<
        (),
        crate::error::MsgPackError,
    >)
        requires
            old(self).length + 9 <= u64::MAX,
        ensures
            final(self).length == old(self).length + (match value {
                Some(v) => wire::size_u64(v as nat),
                None => wire::enc_nil().len(),
            }),
            r is Ok,
    {
        match value {
            None => self.write_nil(),
            Some(v) => self.write_u32(v),
        }
        Ok(())
    }

    pub fn write_nullable_u64(&mut self, value: Option<u64>) -> (r: Result<
        (),
        crate::error::MsgPackError,
    >)
        requires
            old(self).length + 9 <= u64::MAX,
        ensures
            final(self).length == old(self).length + (match value {
                Some(v) => wire::size_u64(v as nat),
                None => wire::enc_nil().len(),
            }),
            r is Ok,
    {
        match value {
            None => self.write_nil(),
            Some(v) => self.write_u64(v),
        }
        Ok(())
    }

    pub fn write_nullable_string(&mut self, value: Option<&str>) -> (r: Result<
        (),
        crate::error::MsgPackError,
    >)
        requires
            old(self).length + 5 + (match value {
                Some(s) => s.spec_bytes().len(),
                None => 0,
            }) <= u64::MAX,
            value matches Some(s) ==> s.spec_bytes().len() <= u32::MAX,
        ensures
            final(self).length == old(self).length + (match value {
                Some(s) => wire::size_string(s.spec_bytes().len()),
                None => wire::enc_nil().len(),
            }),
            r is Ok,
    {
        match value {
            None => self.write_nil(),
            Some(s) => self.write_string(s),
        }
        Ok(())
    }

    pub fn write_nullable_bytes(&mut self, value: Option<Vec<u8>>) -> (r: Result<
        (),
        crate::error::MsgPackError,
    >)
        requires
            old(self).length + 5 + (match value {
                Some(b) => b@.len(),
                None => 0,
            }) <= u64::MAX,
            value matches Some(b) ==> b@.len() <= u32::MAX,
        ensures
            final(self).length == old(self).length + (match value {
                Some(b) => wire::size_bytes(b@.len()),
                None => wire::enc_nil().len(),
            }),
            r is Ok,
    {
        match value {
            None => {
                self.write_nil();
                Ok(())
            },
            Some(b) => self.write_bytes(b.as_slice()),
        }
    }

    pub fn write_nullable_bigint(&mut self, value: Option<num_bigint::BigInt>) -> (r: Result<
        (),
        crate::error::MsgPackError,
    >)
        requires
            old(self).length + 5 + (match value {
                Some(v) => vstd::utf8::encode_utf8(bigint::bigint_digits(v)).len(),
                None => 0,
            }) <= u64::MAX,
            value matches Some(v) ==> vstd::utf8::encode_utf8(bigint::bigint_digits(v)).len()
                <= u32::MAX,
        ensures
            final(self).length == old(self).length + (match value {
                Some(v) => wire::size_string(
                    vstd::utf8::encode_utf8(bigint::bigint_digits(v)).len(),
                ),
                None => wire::enc_nil().len(),
            }),
            value matches Some(v) ==> bigint::is_decimal_seq(bigint::bigint_digits(v))
                && bigint::canonical_digits(bigint::bigint_digits(v)) == bigint::bigint_digits(v),
            r is Ok,
    {
        match value {
            None => self.write_nil(),
            Some(v) => self.write_bigint(v),
        }
        Ok(())
    }
}

} // verus!
