//! The sequential decoder: consumes lead bytes and their payloads from a
//! cursor, producing typed values or the exact error the wire deserves.
//!
//! Every reader is proved against the decode functions of [`crate::wire`]:
//! on success it returns the decoded value and advances by exactly the
//! encoding's width; on failure it returns the error those functions
//! prescribe and never touches the buffer contents.

use vstd::prelude::*;

use crate::data_view::DataView;
use crate::error::MsgPackError;
use crate::tag;
use crate::utils::BLOCK_MAX_SIZE;
use crate::wire;

verus! {

/// A decoder over one buffer; all state is the cursor's offset.
pub struct ReadDecoder {
    pub view: DataView,
}

impl ReadDecoder {
    /// The whole backing buffer.
    pub open spec fn bytes(&self) -> Seq<u8> {
        self.view.bytes()
    }

    /// The current offset.
    pub open spec fn off(&self) -> int {
        self.view.off()
    }

    /// The logical buffer end.
    pub open spec fn limit(&self) -> int {
        self.view.limit()
    }

    /// The bytes not yet consumed.
    pub open spec fn rem(&self) -> Seq<u8> {
        self.view.rem()
    }

    pub open spec fn wf(&self) -> bool {
        self.view.wf()
    }

    /// The frame every reader preserves: same buffer, same window, the
    /// offset only ever moves forward.
    pub open spec fn frame(pre: &ReadDecoder, post: &ReadDecoder) -> bool {
        &&& post.bytes() == pre.bytes()
        &&& post.limit() == pre.limit()
        &&& post.wf()
        &&& pre.off() <= post.off() <= post.limit()
    }

    /// Wraps a buffer, which must fit the maximum block size.
    pub fn new(buffer: &[u8]) -> (r: ReadDecoder)
        requires
            buffer@.len() <= BLOCK_MAX_SIZE,
        ensures
            r.bytes() == buffer@,
            r.off() == 0,
            r.limit() == buffer@.len(),
            r.wf(),
    {
        let view = match DataView::new(buffer) {
            Ok(view) => view,
            Err(_) => {
                // Unreachable: the precondition bounds the buffer length.
                proof {
                    assert(false);
                }
                DataView { buffer: Vec::new(), byte_offset: 0, byte_length: 0 }
            },
        };
        ReadDecoder { view }
    }

    /// True exactly when the next byte is the NIL tag; consumes it then.
    pub fn is_next_nil(&mut self) -> (r: bool)
        requires
            old(self).wf(),
            old(self).rem().len() >= 1,
        ensures
            Self::frame(old(self), final(self)),
            r == (old(self).rem()[0] == tag::NIL),
            r ==> final(self).off() == old(self).off() + 1,
            !r ==> final(self).off() == old(self).off(),
    {
        proof {
            assert(old(self).rem()[0] == old(self).bytes()[old(self).off()]);
        }
        let format = match self.view.peek_u8() {
            Ok(b) => b,
            Err(_) => return false,
        };
        if format == tag::NIL {
            let _ = self.view.discard(1);
            return true;
        }
        false
    }

    /// True exactly when the next byte opens a string: fixed string or
    /// STR8/16/32.  Does not consume it.
    pub fn is_next_string(&mut self) -> (r: bool)
        requires
            old(self).wf(),
            old(self).rem().len() >= 1,
        ensures
            *final(self) == *old(self),
            r == (tag::spec_is_fixed_string(old(self).rem()[0]) || old(self).rem()[0] == tag::STR8
                || old(self).rem()[0] == tag::STR16 || old(self).rem()[0] == tag::STR32),
    {
        proof {
            assert(old(self).rem()[0] == old(self).bytes()[old(self).off()]);
        }
        let format = match self.view.peek_u8() {
            Ok(b) => b,
            Err(_) => return false,
        };
        tag::is_fixed_string(format) || format == tag::STR8 || format == tag::STR16 || format
            == tag::STR32
    }

    /// Reads a boolean: the TRUE or FALSE tag exactly.
    pub fn read_bool(&mut self) -> (r: Result<bool, MsgPackError>)
        requires
            old(self).wf(),
        ensures
            Self::frame(old(self), final(self)),
            match wire::dec_bool(old(self).rem()) {
                Some((v, n)) => r == Ok::<bool, MsgPackError>(v) && final(self).off() == old(self).off() + n,
                None => r == Err::<bool, MsgPackError>(
                    wire::dec_bool_err(old(self).rem(), old(self).off()),
                ),
            },
    {
        proof {
            if old(self).rem().len() > 0 {
                assert(old(self).rem()[0] == old(self).bytes()[old(self).off()]);
            }
        }
        let value = match self.view.get_u8() {
            Ok(v) => v,
            Err(e) => return Err(e),
        };
        if value == tag::TRUE {
            Ok(true)
        } else if value == tag::FALSE {
            Ok(false)
        } else {
            Err(MsgPackError::InvalidFormat { lead: value })
        }
    }

    /// Reads an unsigned integer of any width the wire offers: fixed int,
    /// or UINT8/16/32/64.  A negative fixed int is rejected.
    pub fn read_u64(&mut self) -> (r: Result<u64, MsgPackError>)
        requires
            old(self).wf(),
        ensures
            Self::frame(old(self), final(self)),
            match wire::dec_u64(old(self).rem()) {
                Some((v, n)) => r is Ok && r->Ok_0 as nat == v && final(self).off() == old(self).off() + n,
                None => r == Err::<u64, MsgPackError>(
                    wire::dec_u64_err(old(self).rem(), old(self).off()),
                ),
            },
    {
        proof {
            if old(self).rem().len() > 0 {
                assert(old(self).rem()[0] == old(self).bytes()[old(self).off()]);
            }
        }
        let prefix = match self.view.get_u8() {
            Ok(v) => v,
            Err(e) => return Err(e),
        };
        let ghost rem0 = old(self).rem();
        if tag::is_fixed_int(prefix) {
            return Ok(prefix as u64);
        }
        if tag::is_negative_fixed_int(prefix) {
            return Err(MsgPackError::NegativeValueForUnsigned { lead: prefix });
        }
        if prefix == tag::UINT8 {
            proof {
                if old(self).rem().len() >= 2 {
                    wire::lemma_subrange_of_subrange(
                        old(self).bytes(),
                        old(self).off(),
                        old(self).limit(),
                        1,
                        2,
                    );
                }
            }
            match self.view.get_u8() {
                Ok(v) => {
                    proof {
                        wire::lemma_be_val_singleton(rem0.subrange(1, 2));
                    }
                    Ok(v as u64)
                },
                Err(e) => Err(e),
            }
        } else if prefix == tag::UINT16 {
            proof {
                if old(self).rem().len() >= 3 {
                    wire::lemma_subrange_of_subrange(
                        old(self).bytes(),
                        old(self).off(),
                        old(self).limit(),
                        1,
                        3,
                    );
                }
            }
            match self.view.get_u16() {
                Ok(v) => Ok(v as u64),
                Err(e) => Err(e),
            }
        } else if prefix == tag::UINT32 {
            proof {
                if old(self).rem().len() >= 5 {
                    wire::lemma_subrange_of_subrange(
                        old(self).bytes(),
                        old(self).off(),
                        old(self).limit(),
                        1,
                        5,
                    );
                }
            }
            match self.view.get_u32() {
                Ok(v) => Ok(v as u64),
                Err(e) => Err(e),
            }
        } else if prefix == tag::UINT64 {
            proof {
                if old(self).rem().len() >= 9 {
                    wire::lemma_subrange_of_subrange(
                        old(self).bytes(),
                        old(self).off(),
                        old(self).limit(),
                        1,
                        9,
                    );
                }
            }
            match self.view.get_u64() {
                Ok(v) => Ok(v),
                Err(e) => Err(e),
            }
        } else {
            Err(MsgPackError::InvalidFormat { lead: prefix })
        }
    }

    /// Reads a signed integer of any width the wire offers: either fixed-int
    /// window, or INT8/16/32/64.
    pub fn read_i64(&mut self) -> (r: Result<i64, MsgPackError>)
        requires
            old(self).wf(),
        ensures
            Self::frame(old(self), final(self)),
            match wire::dec_i64(old(self).rem()) {
                Some((v, n)) => r is Ok && r->Ok_0 as int == v && final(self).off() == old(self).off() + n,
                None => r == Err::<i64, MsgPackError>(
                    wire::dec_i64_err(old(self).rem(), old(self).off()),
                ),
            },
    {
        proof {
            wire::lemma_pow256_values();
            if old(self).rem().len() > 0 {
                assert(old(self).rem()[0] == old(self).bytes()[old(self).off()]);
            }
        }
        let prefix = match self.view.get_u8() {
            Ok(v) => v,
            Err(e) => return Err(e),
        };
        let ghost rem0 = old(self).rem();
        if tag::is_fixed_int(prefix) {
            return Ok(prefix as i64);
        }
        if tag::is_negative_fixed_int(prefix) {
            return Ok((prefix as i64) - 0x100);
        }
        if prefix == tag::INT8 {
            proof {
                if old(self).rem().len() >= 2 {
                    wire::lemma_subrange_of_subrange(
                        old(self).bytes(),
                        old(self).off(),
                        old(self).limit(),
                        1,
                        2,
                    );
                }
            }
            match self.view.get_i8() {
                Ok(v) => Ok(v as i64),
                Err(e) => Err(e),
            }
        } else if prefix == tag::INT16 {
            proof {
                if old(self).rem().len() >= 3 {
                    wire::lemma_subrange_of_subrange(
                        old(self).bytes(),
                        old(self).off(),
                        old(self).limit(),
                        1,
                        3,
                    );
                }
            }
            match self.view.get_i16() {
                Ok(v) => Ok(v as i64),
                Err(e) => Err(e),
            }
        } else if prefix == tag::INT32 {
            proof {
                if old(self).rem().len() >= 5 {
                    wire::lemma_subrange_of_subrange(
                        old(self).bytes(),
                        old(self).off(),
                        old(self).limit(),
                        1,
                        5,
                    );
                }
            }
            match self.view.get_i32() {
                Ok(v) => Ok(v as i64),
                Err(e) => Err(e),
            }
        } else if prefix == tag::INT64 {
            proof {
                if old(self).rem().len() >= 9 {
                    wire::lemma_subrange_of_subrange(
                        old(self).bytes(),
                        old(self).off(),
                        old(self).limit(),
                        1,
                        9,
                    );
                }
            }
            match self.view.get_i64() {
                Ok(v) => Ok(v),
                Err(e) => Err(e),
            }
        } else {
            Err(MsgPackError::InvalidFormat { lead: prefix })
        }
    }

    /// Reads a signed integer and narrows it to 8 bits; a value outside
    /// `i8`'s range is an overflow error.
    pub fn read_i8(&mut self) -> (r: Result<i8, MsgPackError>)
        requires
            old(self).wf(),
        ensures
            Self::frame(old(self), final(self)),
            match wire::dec_i64(old(self).rem()) {
                Some((v, n)) => final(self).off() == old(self).off() + n && (if i8::MIN <= v
                    <= i8::MAX {
                    r == Ok::<i8, MsgPackError>(v as i8)
                } else {
                    r == Err::<i8, MsgPackError>(
                        MsgPackError::IntegerOverflow { value: v as i64, bits: 8 },
                    )
                }),
                None => r == Err::<i8, MsgPackError>(
                    wire::dec_i64_err(old(self).rem(), old(self).off()),
                ),
            },
    {
        let value = match self.read_i64() {
            Ok(v) => v,
            Err(e) => return Err(e),
        };
        if value <= i8::MAX as i64 && value >= i8::MIN as i64 {
            Ok(value as i8)
        } else {
            Err(MsgPackError::IntegerOverflow { value, bits: 8 })
        }
    }

    /// Reads a signed integer and narrows it to 16 bits.
    pub fn read_i16(&mut self) -> (r: Result<i16, MsgPackError>)
        requires
            old(self).wf(),
        ensures
            Self::frame(old(self), final(self)),
            match wire::dec_i64(old(self).rem()) {
                Some((v, n)) => final(self).off() == old(self).off() + n && (if i16::MIN <= v
                    <= i16::MAX {
                    r == Ok::<i16, MsgPackError>(v as i16)
                } else {
                    r == Err::<i16, MsgPackError>(
                        MsgPackError::IntegerOverflow { value: v as i64, bits: 16 },
                    )
                }),
                None => r == Err::<i16, MsgPackError>(
                    wire::dec_i64_err(old(self).rem(), old(self).off()),
                ),
            },
    {
        let value = match self.read_i64() {
            Ok(v) => v,
            Err(e) => return Err(e),
        };
        if value <= i16::MAX as i64 && value >= i16::MIN as i64 {
            Ok(value as i16)
        } else {
            Err(MsgPackError::IntegerOverflow { value, bits: 16 })
        }
    }

    /// Reads a signed integer and narrows it to 32 bits.
    pub fn read_i32(&mut self) -> (r: Result<i32, MsgPackError>)
        requires
            old(self).wf(),
        ensures
            Self::frame(old(self), final(self)),
            match wire::dec_i64(old(self).rem()) {
                Some((v, n)) => final(self).off() == old(self).off() + n && (if i32::MIN <= v
                    <= i32::MAX {
                    r == Ok::<i32, MsgPackError>(v as i32)
                } else {
                    r == Err::<i32, MsgPackError>(
                        MsgPackError::IntegerOverflow { value: v as i64, bits: 32 },
                    )
                }),
                None => r == Err::<i32, MsgPackError>(
                    wire::dec_i64_err(old(self).rem(), old(self).off()),
                ),
            },
    {
        let value = match self.read_i64() {
            Ok(v) => v,
            Err(e) => return Err(e),
        };
        if value <= i32::MAX as i64 && value >= i32::MIN as i64 {
            Ok(value as i32)
        } else {
            Err(MsgPackError::IntegerOverflow { value, bits: 32 })
        }
    }

    /// Reads an unsigned integer and narrows it to 8 bits.
    pub fn read_u8(&mut self) -> (r: Result<u8, MsgPackError>)
        requires
            old(self).wf(),
        ensures
            Self::frame(old(self), final(self)),
            match wire::dec_u64(old(self).rem()) {
                Some((v, n)) => final(self).off() == old(self).off() + n && (if v <= u8::MAX {
                    r == Ok::<u8, MsgPackError>(v as u8)
                } else {
                    r == Err::<u8, MsgPackError>(
                        MsgPackError::UnsignedOverflow { value: v as u64, bits: 8 },
                    )
                }),
                None => r == Err::<u8, MsgPackError>(
                    wire::dec_u64_err(old(self).rem(), old(self).off()),
                ),
            },
    {
        let value = match self.read_u64() {
            Ok(v) => v,
            Err(e) => return Err(e),
        };
        if value <= u8::MAX as u64 {
            Ok(value as u8)
        } else {
            Err(MsgPackError::UnsignedOverflow { value, bits: 8 })
        }
    }

    /// Reads an unsigned integer and narrows it to 16 bits.
    pub fn read_u16(&mut self) -> (r: Result<u16, MsgPackError>)
        requires
            old(self).wf(),
        ensures
            Self::frame(old(self), final(self)),
            match wire::dec_u64(old(self).rem()) {
                Some((v, n)) => final(self).off() == old(self).off() + n && (if v <= u16::MAX {
                    r == Ok::<u16, MsgPackError>(v as u16)
                } else {
                    r == Err::<u16, MsgPackError>(
                        MsgPackError::UnsignedOverflow { value: v as u64, bits: 16 },
                    )
                }),
                None => r == Err::<u16, MsgPackError>(
                    wire::dec_u64_err(old(self).rem(), old(self).off()),
                ),
            },
    {
        let value = match self.read_u64() {
            Ok(v) => v,
            Err(e) => return Err(e),
        };
        if value <= u16::MAX as u64 {
            Ok(value as u16)
        } else {
            Err(MsgPackError::UnsignedOverflow { value, bits: 16 })
        }
    }

    /// Reads an unsigned integer and narrows it to 32 bits.
    pub fn read_u32(&mut self) -> (r: Result<u32, MsgPackError>)
        requires
            old(self).wf(),
        ensures
            Self::frame(old(self), final(self)),
            match wire::dec_u64(old(self).rem()) {
                Some((v, n)) => final(self).off() == old(self).off() + n && (if v <= u32::MAX {
                    r == Ok::<u32, MsgPackError>(v as u32)
                } else {
                    r == Err::<u32, MsgPackError>(
                        MsgPackError::UnsignedOverflow { value: v as u64, bits: 32 },
                    )
                }),
                None => r == Err::<u32, MsgPackError>(
                    wire::dec_u64_err(old(self).rem(), old(self).off()),
                ),
            },
    {
        let value = match self.read_u64() {
            Ok(v) => v,
            Err(e) => return Err(e),
        };
        if value <= u32::MAX as u64 {
            Ok(value as u32)
        } else {
            Err(MsgPackError::UnsignedOverflow { value, bits: 32 })
        }
    }

    /// Reads a 32-bit float's raw bit pattern: the FLOAT32 tag exactly,
    /// then four big-endian payload bytes.
    pub fn read_f32_bits(&mut self) -> (r: Result<u32, MsgPackError>)
        requires
            old(self).wf(),
        ensures
            Self::frame(old(self), final(self)),
            match wire::dec_f32_bits(old(self).rem()) {
                Some((v, n)) => r is Ok && r->Ok_0 as nat == v && final(self).off() == old(self).off() + n,
                None => r == Err::<u32, MsgPackError>(
                    wire::dec_f32_bits_err(old(self).rem(), old(self).off()),
                ),
            },
    {
        proof {
            if old(self).rem().len() > 0 {
                assert(old(self).rem()[0] == old(self).bytes()[old(self).off()]);
            }
        }
        let prefix = match self.view.get_u8() {
            Ok(v) => v,
            Err(e) => return Err(e),
        };
        if tag::is_float_32(prefix) {
            proof {
                if old(self).rem().len() >= 5 {
                    wire::lemma_subrange_of_subrange(
                        old(self).bytes(),
                        old(self).off(),
                        old(self).limit(),
                        1,
                        5,
                    );
                }
            }
            match self.view.get_u32() {
                Ok(v) => Ok(v),
                Err(e) => Err(e),
            }
        } else {
            Err(MsgPackError::InvalidFormat { lead: prefix })
        }
    }

    /// Reads a 64-bit float's raw bit pattern: the FLOAT64 tag exactly,
    /// then eight big-endian payload bytes.
    pub fn read_f64_bits(&mut self) -> (r: Result<u64, MsgPackError>)
        requires
            old(self).wf(),
        ensures
            Self::frame(old(self), final(self)),
            match wire::dec_f64_bits(old(self).rem()) {
                Some((v, n)) => r is Ok && r->Ok_0 as nat == v && final(self).off() == old(self).off() + n,
                None => r == Err::<u64, MsgPackError>(
                    wire::dec_f64_bits_err(old(self).rem(), old(self).off()),
                ),
            },
    {
        proof {
            if old(self).rem().len() > 0 {
                assert(old(self).rem()[0] == old(self).bytes()[old(self).off()]);
            }
        }
        let prefix = match self.view.get_u8() {
            Ok(v) => v,
            Err(e) => return Err(e),
        };
        if tag::is_float_64(prefix) {
            proof {
                if old(self).rem().len() >= 9 {
                    wire::lemma_subrange_of_subrange(
                        old(self).bytes(),
                        old(self).off(),
                        old(self).limit(),
                        1,
                        9,
                    );
                }
            }
            match self.view.get_u64() {
                Ok(v) => Ok(v),
                Err(e) => Err(e),
            }
        } else {
            Err(MsgPackError::InvalidFormat { lead: prefix })
        }
    }

    /// Reads an explicitly nullable 32-bit float bit pattern.
    pub fn read_nullable_f32_bits(&mut self) -> (r: Result<Option<u32>, MsgPackError>)
        requires
            old(self).wf(),
        ensures
            Self::frame(old(self), final(self)),
            old(self).rem().len() == 0 ==> r == Err::<Option<u32>, MsgPackError>(
                wire::oor(1, old(self).off(), old(self).limit()),
            ) && final(self).off() == old(self).off(),
            old(self).rem().len() >= 1 && old(self).rem()[0] == tag::NIL ==> r == Ok::<
                Option<u32>,
                MsgPackError,
            >(None) && final(self).off() == old(self).off() + 1,
            old(self).rem().len() >= 1 && old(self).rem()[0] != tag::NIL ==> (
            match wire::dec_f32_bits(old(self).rem()) {
                Some((v, n)) => r is Ok && r->Ok_0 is Some && r->Ok_0->0 as nat == v && final(self).off() == old(self).off() + n,
                None => r == Err::<Option<u32>, MsgPackError>(
                    wire::dec_f32_bits_err(old(self).rem(), old(self).off()),
                ),
            }),
    {
        if self.view.byte_length - self.view.byte_offset < 1 {
            return Err(
                MsgPackError::IndexOutOfRange {
                    requested: 1,
                    offset: self.view.byte_offset,
                    length: self.view.byte_length,
                },
            );
        }
        if self.is_next_nil() {
            return Ok(None);
        }
        match self.read_f32_bits() {
            Ok(v) => Ok(Some(v)),
            Err(e) => Err(e),
        }
    }

    /// Reads an explicitly nullable 64-bit float bit pattern.
    pub fn read_nullable_f64_bits(&mut self) -> (r: Result<Option<u64>, MsgPackError>)
        requires
            old(self).wf(),
        ensures
            Self::frame(old(self), final(self)),
            old(self).rem().len() == 0 ==> r == Err::<Option<u64>, MsgPackError>(
                wire::oor(1, old(self).off(), old(self).limit()),
            ) && final(self).off() == old(self).off(),
            old(self).rem().len() >= 1 && old(self).rem()[0] == tag::NIL ==> r == Ok::<
                Option<u64>,
                MsgPackError,
            >(None) && final(self).off() == old(self).off() + 1,
            old(self).rem().len() >= 1 && old(self).rem()[0] != tag::NIL ==> (
            match wire::dec_f64_bits(old(self).rem()) {
                Some((v, n)) => r is Ok && r->Ok_0 is Some && r->Ok_0->0 as nat == v && final(self).off() == old(self).off() + n,
                None => r == Err::<Option<u64>, MsgPackError>(
                    wire::dec_f64_bits_err(old(self).rem(), old(self).off()),
                ),
            }),
    {
        if self.view.byte_length - self.view.byte_offset < 1 {
            return Err(
                MsgPackError::IndexOutOfRange {
                    requested: 1,
                    offset: self.view.byte_offset,
                    length: self.view.byte_length,
                },
            );
        }
        if self.is_next_nil() {
            return Ok(None);
        }
        match self.read_f64_bits() {
            Ok(v) => Ok(Some(v)),
            Err(e) => Err(e),
        }
    }

    /// Reads a string length: fixed string or STR8/16/32.
    pub fn read_string_length(&mut self) -> (r: Result<u32, MsgPackError>)
        requires
            old(self).wf(),
        ensures
            Self::frame(old(self), final(self)),
            match wire::dec_str_len(old(self).rem()) {
                Some((l, n)) => r is Ok && r->Ok_0 as nat == l && final(self).off() == old(self).off() + n,
                None => r == Err::<u32, MsgPackError>(
                    wire::dec_str_len_err(old(self).rem(), old(self).off()),
                ),
            },
    {
        proof {
            if old(self).rem().len() > 0 {
                assert(old(self).rem()[0] == old(self).bytes()[old(self).off()]);
            }
        }
        let lead_byte = match self.view.get_u8() {
            Ok(v) => v,
            Err(e) => return Err(e),
        };
        let ghost rem0 = old(self).rem();
        if tag::is_fixed_string(lead_byte) {
            proof {
                assert(lead_byte & tag::FIVE_LEAST_SIG_BITS_IN_BYTE == lead_byte % 0x20)
                    by (bit_vector);
                assert(lead_byte % 0x20 == lead_byte - 0xa0);
            }
            return Ok((lead_byte & tag::FIVE_LEAST_SIG_BITS_IN_BYTE) as u32);
        }
        if lead_byte == tag::STR8 {
            proof {
                if old(self).rem().len() >= 2 {
                    wire::lemma_subrange_of_subrange(
                        old(self).bytes(),
                        old(self).off(),
                        old(self).limit(),
                        1,
                        2,
                    );
                    wire::lemma_be_val_singleton(rem0.subrange(1, 2));
                }
            }
            match self.view.get_u8() {
                Ok(v) => Ok(v as u32),
                Err(e) => Err(e),
            }
        } else if lead_byte == tag::STR16 {
            proof {
                if old(self).rem().len() >= 3 {
                    wire::lemma_subrange_of_subrange(
                        old(self).bytes(),
                        old(self).off(),
                        old(self).limit(),
                        1,
                        3,
                    );
                }
            }
            match self.view.get_u16() {
                Ok(v) => Ok(v as u32),
                Err(e) => Err(e),
            }
        } else if lead_byte == tag::STR32 {
            proof {
                if old(self).rem().len() >= 5 {
                    wire::lemma_subrange_of_subrange(
                        old(self).bytes(),
                        old(self).off(),
                        old(self).limit(),
                        1,
                        5,
                    );
                }
            }
            match self.view.get_u32() {
                Ok(v) => Ok(v),
                Err(e) => Err(e),
            }
        } else {
            Err(MsgPackError::InvalidFormat { lead: lead_byte })
        }
    }

    /// Reads a whole string: its length, the raw payload, then UTF-8
    /// validation.  A payload that is not UTF-8 is a fatal decode error.
    pub fn read_string(&mut self) -> (r: Result<String, MsgPackError>)
        requires
            old(self).wf(),
        ensures
            Self::frame(old(self), final(self)),
            match wire::dec_str(old(self).rem()) {
                Some((payload, n)) => final(self).off() == old(self).off() + n && (
                if vstd::utf8::valid_utf8(payload) {
                    r is Ok && r->Ok_0@ == vstd::utf8::decode_utf8(payload)
                } else {
                    r == Err::<String, MsgPackError>(MsgPackError::InvalidUtf8)
                }),
                None => r == Err::<String, MsgPackError>(
                    wire::dec_str_err(old(self).rem(), old(self).off()),
                ),
            },
    {
        let str_len = match self.read_string_length() {
            Ok(l) => l,
            Err(e) => return Err(e),
        };
        let ghost rem0 = old(self).rem();
        let ghost n0 = (wire::dec_str_len(rem0)->0).1 as int;
        proof {
            if self.off() + str_len <= self.limit() {
                wire::lemma_subrange_of_subrange(
                    old(self).bytes(),
                    old(self).off(),
                    old(self).limit(),
                    n0,
                    n0 + str_len as int,
                );
            }
        }
        let str_bytes = match self.view.get_bytes(str_len as usize) {
            Ok(b) => b,
            Err(e) => return Err(e),
        };
        match string_from_utf8(str_bytes) {
            Some(s) => Ok(s),
            None => Err(MsgPackError::InvalidUtf8),
        }
    }

    /// Reads a byte-blob length: NIL means empty, anything else follows the
    /// string length grammar.
    pub fn read_bytes_length(&mut self) -> (r: Result<u32, MsgPackError>)
        requires
            old(self).wf(),
        ensures
            Self::frame(old(self), final(self)),
            match wire::dec_bytes_len(old(self).rem()) {
                Some((l, n)) => r is Ok && r->Ok_0 as nat == l && final(self).off() == old(self).off() + n,
                None => r == Err::<u32, MsgPackError>(
                    wire::dec_bytes_len_err(old(self).rem(), old(self).off()),
                ),
            },
    {
        if self.view.byte_length - self.view.byte_offset >= 1 {
            if self.is_next_nil() {
                return Ok(0);
            }
        }
        self.read_string_length()
    }

    /// Reads a whole byte blob: its length, then the raw payload.
    pub fn read_bytes(&mut self) -> (r: Result<Vec<u8>, MsgPackError>)
        requires
            old(self).wf(),
        ensures
            Self::frame(old(self), final(self)),
            match wire::dec_bytes(old(self).rem()) {
                Some((payload, n)) => r is Ok && r->Ok_0@ == payload && final(self).off() == old(self).off() + n,
                None => r == Err::<Vec<u8>, MsgPackError>(
                    wire::dec_bytes_err(old(self).rem(), old(self).off()),
                ),
            },
    {
        let array_length = match self.read_bytes_length() {
            Ok(l) => l,
            Err(e) => return Err(e),
        };
        let ghost rem0 = old(self).rem();
        let ghost n0 = (wire::dec_bytes_len(rem0)->0).1 as int;
        proof {
            if self.off() + array_length <= self.limit() {
                wire::lemma_subrange_of_subrange(
                    old(self).bytes(),
                    old(self).off(),
                    old(self).limit(),
                    n0,
                    n0 + array_length as int,
                );
            }
        }
        match self.view.get_bytes(array_length as usize) {
            Ok(b) => Ok(b),
            Err(e) => Err(e),
        }
    }

    /// Reads an array length: fixed array, ARRAY16/32, or NIL for empty.
    pub fn read_array_length(&mut self) -> (r: Result<u32, MsgPackError>)
        requires
            old(self).wf(),
        ensures
            Self::frame(old(self), final(self)),
            match wire::dec_arr_len(old(self).rem()) {
                Some((l, n)) => r is Ok && r->Ok_0 as nat == l && final(self).off() == old(self).off() + n,
                None => r == Err::<u32, MsgPackError>(
                    wire::dec_arr_len_err(old(self).rem(), old(self).off()),
                ),
            },
    {
        proof {
            if old(self).rem().len() > 0 {
                assert(old(self).rem()[0] == old(self).bytes()[old(self).off()]);
            }
        }
        let lead_byte = match self.view.get_u8() {
            Ok(v) => v,
            Err(e) => return Err(e),
        };
        let ghost rem0 = old(self).rem();
        if tag::is_fixed_array(lead_byte) {
            proof {
                assert(lead_byte & tag::FOUR_LEAST_SIG_BITS_IN_BYTE == lead_byte % 0x10)
                    by (bit_vector);
                assert(lead_byte % 0x10 == lead_byte - 0x90);
            }
            Ok((lead_byte & tag::FOUR_LEAST_SIG_BITS_IN_BYTE) as u32)
        } else if lead_byte == tag::ARRAY16 {
            proof {
                if old(self).rem().len() >= 3 {
                    wire::lemma_subrange_of_subrange(
                        old(self).bytes(),
                        old(self).off(),
                        old(self).limit(),
                        1,
                        3,
                    );
                }
            }
            match self.view.get_u16() {
                Ok(v) => Ok(v as u32),
                Err(e) => Err(e),
            }
        } else if lead_byte == tag::ARRAY32 {
            proof {
                if old(self).rem().len() >= 5 {
                    wire::lemma_subrange_of_subrange(
                        old(self).bytes(),
                        old(self).off(),
                        old(self).limit(),
                        1,
                        5,
                    );
                }
            }
            match self.view.get_u32() {
                Ok(v) => Ok(v),
                Err(e) => Err(e),
            }
        } else if lead_byte == tag::NIL {
            Ok(0)
        } else {
            Err(MsgPackError::InvalidFormat { lead: lead_byte })
        }
    }

    /// Reads a map length: fixed map or MAP16/32; NIL is not accepted.
    pub fn read_map_length(&mut self) -> (r: Result<u32, MsgPackError>)
        requires
            old(self).wf(),
        ensures
            Self::frame(old(self), final(self)),
            match wire::dec_map_len(old(self).rem()) {
                Some((l, n)) => r is Ok && r->Ok_0 as nat == l && final(self).off() == old(self).off() + n,
                None => r == Err::<u32, MsgPackError>(
                    wire::dec_map_len_err(old(self).rem(), old(self).off()),
                ),
            },
    {
        proof {
            if old(self).rem().len() > 0 {
                assert(old(self).rem()[0] == old(self).bytes()[old(self).off()]);
            }
        }
        let lead_byte = match self.view.get_u8() {
            Ok(v) => v,
            Err(e) => return Err(e),
        };
        let ghost rem0 = old(self).rem();
        if tag::is_fixed_map(lead_byte) {
            proof {
                assert(lead_byte & tag::FOUR_LEAST_SIG_BITS_IN_BYTE == lead_byte % 0x10)
                    by (bit_vector);
                assert(lead_byte % 0x10 == lead_byte - 0x80);
            }
            Ok((lead_byte & tag::FOUR_LEAST_SIG_BITS_IN_BYTE) as u32)
        } else if lead_byte == tag::MAP16 {
            proof {
                if old(self).rem().len() >= 3 {
                    wire::lemma_subrange_of_subrange(
                        old(self).bytes(),
                        old(self).off(),
                        old(self).limit(),
                        1,
                        3,
                    );
                }
            }
            match self.view.get_u16() {
                Ok(v) => Ok(v as u32),
                Err(e) => Err(e),
            }
        } else if lead_byte == tag::MAP32 {
            proof {
                if old(self).rem().len() >= 5 {
                    wire::lemma_subrange_of_subrange(
                        old(self).bytes(),
                        old(self).off(),
                        old(self).limit(),
                        1,
                        5,
                    );
                }
            }
            match self.view.get_u32() {
                Ok(v) => Ok(v),
                Err(e) => Err(e),
            }
        } else {
            Err(MsgPackError::InvalidFormat { lead: lead_byte })
        }
    }

    /// Dispatches on the next lead byte and discards any fixed-width or
    /// explicit-length payload; returns how many nested values the caller
    /// must still discard (arrays: their length; maps: twice it).
    pub fn get_size(&mut self) -> (r: Result<u64, MsgPackError>)
        requires
            old(self).wf(),
        ensures
            Self::frame(old(self), final(self)),
            match wire::dec_size(old(self).rem()) {
                Some((k, c)) => r is Ok && r->Ok_0 as nat == k && final(self).off() == old(self).off() + c,
                None => r == Err::<u64, MsgPackError>(
                    wire::dec_size_err(old(self).rem(), old(self).off()),
                ),
            },
    {
        proof {
            if old(self).rem().len() > 0 {
                assert(old(self).rem()[0] == old(self).bytes()[old(self).off()]);
            }
        }
        let lead_byte = match self.view.get_u8() {
            Ok(v) => v,
            Err(e) => return Err(e),
        };
        let ghost rem0 = old(self).rem();
        let mut objects_to_discard: u64 = 0;
        if tag::is_negative_fixed_int(lead_byte) {
            // Nothing follows the lead byte.
        } else if tag::is_fixed_int(lead_byte) {
            // Nothing follows the lead byte.
        } else if tag::is_fixed_string(lead_byte) {
            proof {
                assert(lead_byte & tag::FIVE_LEAST_SIG_BITS_IN_BYTE == lead_byte % 0x20)
                    by (bit_vector);
                assert(lead_byte % 0x20 == lead_byte - 0xa0);
            }
            let str_len = lead_byte & tag::FIVE_LEAST_SIG_BITS_IN_BYTE;
            match self.view.discard(str_len as usize) {
                Ok(_) => (),
                Err(e) => return Err(e),
            }
        } else if tag::is_fixed_array(lead_byte) {
            proof {
                assert(lead_byte & tag::FOUR_LEAST_SIG_BITS_IN_BYTE == lead_byte % 0x10)
                    by (bit_vector);
                assert(lead_byte % 0x10 == lead_byte - 0x90);
            }
            objects_to_discard = (lead_byte & tag::FOUR_LEAST_SIG_BITS_IN_BYTE) as u64;
        } else if tag::is_fixed_map(lead_byte) {
            proof {
                assert(lead_byte & tag::FOUR_LEAST_SIG_BITS_IN_BYTE == lead_byte % 0x10)
                    by (bit_vector);
                assert(lead_byte % 0x10 == lead_byte - 0x80);
            }
            objects_to_discard = 2 * ((lead_byte & tag::FOUR_LEAST_SIG_BITS_IN_BYTE) as u64);
        } else if lead_byte == tag::NIL || lead_byte == tag::TRUE || lead_byte == tag::FALSE {
            // Nothing follows the lead byte.
        } else if lead_byte == tag::BIN8 || lead_byte == tag::STR8 {
            proof {
                if old(self).rem().len() >= 2 {
                    wire::lemma_subrange_of_subrange(
                        old(self).bytes(),
                        old(self).off(),
                        old(self).limit(),
                        1,
                        2,
                    );
                    wire::lemma_be_val_singleton(rem0.subrange(1, 2));
                }
            }
            let length = match self.view.get_u8() {
                Ok(v) => v,
                Err(e) => return Err(e),
            };
            match self.view.discard(length as usize) {
                Ok(_) => (),
                Err(e) => return Err(e),
            }
        } else if lead_byte == tag::BIN16 || lead_byte == tag::STR16 {
            proof {
                if old(self).rem().len() >= 3 {
                    wire::lemma_subrange_of_subrange(
                        old(self).bytes(),
                        old(self).off(),
                        old(self).limit(),
                        1,
                        3,
                    );
                }
            }
            let length = match self.view.get_u16() {
                Ok(v) => v,
                Err(e) => return Err(e),
            };
            match self.view.discard(length as usize) {
                Ok(_) => (),
                Err(e) => return Err(e),
            }
        } else if lead_byte == tag::BIN32 || lead_byte == tag::STR32 {
            proof {
                if old(self).rem().len() >= 5 {
                    wire::lemma_subrange_of_subrange(
                        old(self).bytes(),
                        old(self).off(),
                        old(self).limit(),
                        1,
                        5,
                    );
                }
            }
            let length = match self.view.get_u32() {
                Ok(v) => v,
                Err(e) => return Err(e),
            };
            match self.view.discard(length as usize) {
                Ok(_) => (),
                Err(e) => return Err(e),
            }
        } else if lead_byte == tag::FLOAT32 {
            match self.view.discard(4) {
                Ok(_) => (),
                Err(e) => return Err(e),
            }
        } else if lead_byte == tag::FLOAT64 {
            match self.view.discard(8) {
                Ok(_) => (),
                Err(e) => return Err(e),
            }
        } else if lead_byte == tag::UINT8 || lead_byte == tag::INT8 {
            match self.view.discard(1) {
                Ok(_) => (),
                Err(e) => return Err(e),
            }
        } else if lead_byte == tag::UINT16 || lead_byte == tag::INT16 {
            match self.view.discard(2) {
                Ok(_) => (),
                Err(e) => return Err(e),
            }
        } else if lead_byte == tag::UINT32 || lead_byte == tag::INT32 {
            match self.view.discard(4) {
                Ok(_) => (),
                Err(e) => return Err(e),
            }
        } else if lead_byte == tag::UINT64 || lead_byte == tag::INT64 {
            match self.view.discard(8) {
                Ok(_) => (),
                Err(e) => return Err(e),
            }
        } else if lead_byte == tag::FIXEXT1 {
            match self.view.discard(2) {
                Ok(_) => (),
                Err(e) => return Err(e),
            }
        } else if lead_byte == tag::FIXEXT2 {
            match self.view.discard(3) {
                Ok(_) => (),
                Err(e) => return Err(e),
            }
        } else if lead_byte == tag::FIXEXT4 {
            match self.view.discard(5) {
                Ok(_) => (),
                Err(e) => return Err(e),
            }
        } else if lead_byte == tag::FIXEXT8 {
            match self.view.discard(9) {
                Ok(_) => (),
                Err(e) => return Err(e),
            }
        } else if lead_byte == tag::FIXEXT16 {
            match self.view.discard(17) {
                Ok(_) => (),
                Err(e) => return Err(e),
            }
        } else if lead_byte == tag::ARRAY16 {
            proof {
                if old(self).rem().len() >= 3 {
                    wire::lemma_subrange_of_subrange(
                        old(self).bytes(),
                        old(self).off(),
                        old(self).limit(),
                        1,
                        3,
                    );
                }
            }
            objects_to_discard = match self.view.get_u16() {
                Ok(v) => v as u64,
                Err(e) => return Err(e),
            };
        } else if lead_byte == tag::ARRAY32 {
            proof {
                if old(self).rem().len() >= 5 {
                    wire::lemma_subrange_of_subrange(
                        old(self).bytes(),
                        old(self).off(),
                        old(self).limit(),
                        1,
                        5,
                    );
                }
            }
            objects_to_discard = match self.view.get_u32() {
                Ok(v) => v as u64,
                Err(e) => return Err(e),
            };
        } else if lead_byte == tag::MAP16 {
            proof {
                if old(self).rem().len() >= 3 {
                    wire::lemma_subrange_of_subrange(
                        old(self).bytes(),
                        old(self).off(),
                        old(self).limit(),
                        1,
                        3,
                    );
                }
            }
            objects_to_discard = match self.view.get_u16() {
                Ok(v) => 2 * (v as u64),
                Err(e) => return Err(e),
            };
        } else if lead_byte == tag::MAP32 {
            proof {
                if old(self).rem().len() >= 5 {
                    wire::lemma_subrange_of_subrange(
                        old(self).bytes(),
                        old(self).off(),
                        old(self).limit(),
                        1,
                        5,
                    );
                }
            }
            objects_to_discard = match self.view.get_u32() {
                Ok(v) => 2 * (v as u64),
                Err(e) => return Err(e),
            };
        } else {
            return Err(MsgPackError::InvalidFormat { lead: lead_byte });
        }
        Ok(objects_to_discard)
    }

    /// Skips one encoded value: one dispatcher step, then the discard loop
    /// it asks for.  Nested aggregates inside the discarded values are
    /// stepped over without recursing into their own element counts.
    pub fn skip(&mut self) -> (r: Result<(), MsgPackError>)
        requires
            old(self).wf(),
        ensures
            Self::frame(old(self), final(self)),
            match wire::dec_skip(old(self).rem()) {
                Some(t) => r is Ok && final(self).off() == old(self).off() + t,
                None => r == Err::<(), MsgPackError>(
                    wire::dec_skip_err(old(self).rem(), old(self).off()),
                ),
            },
    {
        // get_size discards the value's own header and payload.
        let mut num_of_objects_to_discard = match self.get_size() {
            Ok(n) => n,
            Err(e) => return Err(e),
        };
        proof {
            let c0 = (wire::dec_size(old(self).rem())->0).1 as int;
            wire::lemma_rem_skip(old(self).bytes(), old(self).off(), old(self).limit(), c0);
        }
        while num_of_objects_to_discard > 0
            invariant
                self.wf(),
                self.bytes() == old(self).bytes(),
                self.limit() == old(self).limit(),
                old(self).off() <= self.off() <= self.limit(),
                match wire::skip_n(self.rem(), num_of_objects_to_discard as nat) {
                    Some(t) => wire::dec_skip(old(self).rem()) == Some(
                        ((self.off() - old(self).off()) + t) as nat,
                    ),
                    None => wire::dec_skip(old(self).rem()) is None && wire::dec_skip_err(
                        old(self).rem(),
                        old(self).off(),
                    ) == wire::skip_n_err(
                        self.rem(),
                        num_of_objects_to_discard as nat,
                        self.off(),
                    ),
                },
            decreases num_of_objects_to_discard,
        {
            let ghost rem_i = self.rem();
            let ghost off_i = self.off();
            match self.get_size() {
                Ok(_) => (),
                Err(e) => {
                    proof {
                        assert(wire::skip_n(rem_i, num_of_objects_to_discard as nat) is None);
                    }
                    return Err(e);
                },
            }
            proof {
                let c = (wire::dec_size(rem_i)->0).1 as int;
                wire::lemma_rem_skip(self.bytes(), off_i, self.limit(), c);
            }
            num_of_objects_to_discard = num_of_objects_to_discard - 1;
        }
        Ok(())
    }

    /// Reads an explicitly nullable boolean: NIL means absent.
    pub fn read_nullable_bool(&mut self) -> (r: Result<Option<bool>, MsgPackError>)
        requires
            old(self).wf(),
        ensures
            Self::frame(old(self), final(self)),
            old(self).rem().len() == 0 ==> r == Err::<Option<bool>, MsgPackError>(
                wire::oor(1, old(self).off(), old(self).limit()),
            ) && final(self).off() == old(self).off(),
            old(self).rem().len() >= 1 && old(self).rem()[0] == tag::NIL ==> r == Ok::<
                Option<bool>,
                MsgPackError,
            >(None) && final(self).off() == old(self).off() + 1,
            old(self).rem().len() >= 1 && old(self).rem()[0] != tag::NIL ==> (
            match wire::dec_bool(old(self).rem()) {
                Some((v, n)) => r == Ok::<Option<bool>, MsgPackError>(Some(v)) && final(self).off() == old(self).off() + n,
                None => r == Err::<Option<bool>, MsgPackError>(
                    wire::dec_bool_err(old(self).rem(), old(self).off()),
                ),
            }),
    {
        if self.view.byte_length - self.view.byte_offset < 1 {
            return Err(
                MsgPackError::IndexOutOfRange {
                    requested: 1,
                    offset: self.view.byte_offset,
                    length: self.view.byte_length,
                },
            );
        }
        if self.is_next_nil() {
            return Ok(None);
        }
        match self.read_bool() {
            Ok(v) => Ok(Some(v)),
            Err(e) => Err(e),
        }
    }

    /// Reads an explicitly nullable signed 8-bit integer.
    pub fn read_nullable_i8(&mut self) -> (r: Result<Option<i8>, MsgPackError>)
        requires
            old(self).wf(),
        ensures
            Self::frame(old(self), final(self)),
            old(self).rem().len() == 0 ==> r == Err::<Option<i8>, MsgPackError>(
                wire::oor(1, old(self).off(), old(self).limit()),
            ) && final(self).off() == old(self).off(),
            old(self).rem().len() >= 1 && old(self).rem()[0] == tag::NIL ==> r == Ok::<
                Option<i8>,
                MsgPackError,
            >(None) && final(self).off() == old(self).off() + 1,
            old(self).rem().len() >= 1 && old(self).rem()[0] != tag::NIL ==> (
            match wire::dec_i64(old(self).rem()) {
                Some((v, n)) => final(self).off() == old(self).off() + n && (if i8::MIN <= v
                    <= i8::MAX {
                    r == Ok::<Option<i8>, MsgPackError>(Some(v as i8))
                } else {
                    r == Err::<Option<i8>, MsgPackError>(
                        MsgPackError::IntegerOverflow { value: v as i64, bits: 8 },
                    )
                }),
                None => r == Err::<Option<i8>, MsgPackError>(
                    wire::dec_i64_err(old(self).rem(), old(self).off()),
                ),
            }),
    {
        if self.view.byte_length - self.view.byte_offset < 1 {
            return Err(
                MsgPackError::IndexOutOfRange {
                    requested: 1,
                    offset: self.view.byte_offset,
                    length: self.view.byte_length,
                },
            );
        }
        if self.is_next_nil() {
            return Ok(None);
        }
        match self.read_i8() {
            Ok(v) => Ok(Some(v)),
            Err(e) => Err(e),
        }
    }

    /// Reads an explicitly nullable signed 16-bit integer.
    pub fn read_nullable_i16(&mut self) -> (r: Result<Option<i16>, MsgPackError>)
        requires
            old(self).wf(),
        ensures
            Self::frame(old(self), final(self)),
            old(self).rem().len() == 0 ==> r == Err::<Option<i16>, MsgPackError>(
                wire::oor(1, old(self).off(), old(self).limit()),
            ) && final(self).off() == old(self).off(),
            old(self).rem().len() >= 1 && old(self).rem()[0] == tag::NIL ==> r == Ok::<
                Option<i16>,
                MsgPackError,
            >(None) && final(self).off() == old(self).off() + 1,
            old(self).rem().len() >= 1 && old(self).rem()[0] != tag::NIL ==> (
            match wire::dec_i64(old(self).rem()) {
                Some((v, n)) => final(self).off() == old(self).off() + n && (if i16::MIN <= v
                    <= i16::MAX {
                    r == Ok::<Option<i16>, MsgPackError>(Some(v as i16))
                } else {
                    r == Err::<Option<i16>, MsgPackError>(
                        MsgPackError::IntegerOverflow { value: v as i64, bits: 16 },
                    )
                }),
                None => r == Err::<Option<i16>, MsgPackError>(
                    wire::dec_i64_err(old(self).rem(), old(self).off()),
                ),
            }),
    {
        if self.view.byte_length - self.view.byte_offset < 1 {
            return Err(
                MsgPackError::IndexOutOfRange {
                    requested: 1,
                    offset: self.view.byte_offset,
                    length: self.view.byte_length,
                },
            );
        }
        if self.is_next_nil() {
            return Ok(None);
        }
        match self.read_i16() {
            Ok(v) => Ok(Some(v)),
            Err(e) => Err(e),
        }
    }

    /// Reads an explicitly nullable signed 32-bit integer: a NIL head byte
    /// yields absence after exactly one byte; any other head decodes as a
    /// 32-bit read.
    pub fn read_nullable_i32(&mut self) -> (r: Result<Option<i32>, MsgPackError>)
        requires
            old(self).wf(),
        ensures
            Self::frame(old(self), final(self)),
            old(self).rem().len() == 0 ==> r == Err::<Option<i32>, MsgPackError>(
                wire::oor(1, old(self).off(), old(self).limit()),
            ) && final(self).off() == old(self).off(),
            old(self).rem().len() >= 1 && old(self).rem()[0] == tag::NIL ==> r == Ok::<
                Option<i32>,
                MsgPackError,
            >(None) && final(self).off() == old(self).off() + 1,
            old(self).rem().len() >= 1 && old(self).rem()[0] != tag::NIL ==> (
            match wire::dec_i64(old(self).rem()) {
                Some((v, n)) => final(self).off() == old(self).off() + n && (if i32::MIN <= v
                    <= i32::MAX {
                    r == Ok::<Option<i32>, MsgPackError>(Some(v as i32))
                } else {
                    r == Err::<Option<i32>, MsgPackError>(
                        MsgPackError::IntegerOverflow { value: v as i64, bits: 32 },
                    )
                }),
                None => r == Err::<Option<i32>, MsgPackError>(
                    wire::dec_i64_err(old(self).rem(), old(self).off()),
                ),
            }),
    {
        if self.view.byte_length - self.view.byte_offset < 1 {
            return Err(
                MsgPackError::IndexOutOfRange {
                    requested: 1,
                    offset: self.view.byte_offset,
                    length: self.view.byte_length,
                },
            );
        }
        if self.is_next_nil() {
            return Ok(None);
        }
        match self.read_i32() {
            Ok(v) => Ok(Some(v)),
            Err(e) => Err(e),
        }
    }

    /// Reads an explicitly nullable signed 64-bit integer.
    pub fn read_nullable_i64(&mut self) -> (r: Result<Option<i64>, MsgPackError>)
        requires
            old(self).wf(),
        ensures
            Self::frame(old(self), final(self)),
            old(self).rem().len() == 0 ==> r == Err::<Option<i64>, MsgPackError>(
                wire::oor(1, old(self).off(), old(self).limit()),
            ) && final(self).off() == old(self).off(),
            old(self).rem().len() >= 1 && old(self).rem()[0] == tag::NIL ==> r == Ok::<
                Option<i64>,
                MsgPackError,
            >(None) && final(self).off() == old(self).off() + 1,
            old(self).rem().len() >= 1 && old(self).rem()[0] != tag::NIL ==> (
            match wire::dec_i64(old(self).rem()) {
                Some((v, n)) => r is Ok && r->Ok_0 is Some && r->Ok_0->0 as int == v && final(self).off() == old(self).off() + n,
                None => r == Err::<Option<i64>, MsgPackError>(
                    wire::dec_i64_err(old(self).rem(), old(self).off()),
                ),
            }),
    {
        if self.view.byte_length - self.view.byte_offset < 1 {
            return Err(
                MsgPackError::IndexOutOfRange {
                    requested: 1,
                    offset: self.view.byte_offset,
                    length: self.view.byte_length,
                },
            );
        }
        if self.is_next_nil() {
            return Ok(None);
        }
        match self.read_i64() {
            Ok(v) => Ok(Some(v)),
            Err(e) => Err(e),
        }
    }

    /// Reads an explicitly nullable unsigned 8-bit integer.
    pub fn read_nullable_u8(&mut self) -> (r: Result<Option<u8>, MsgPackError>)
        requires
            old(self).wf(),
        ensures
            Self::frame(old(self), final(self)),
            old(self).rem().len() == 0 ==> r == Err::<Option<u8>, MsgPackError>(
                wire::oor(1, old(self).off(), old(self).limit()),
            ) && final(self).off() == old(self).off(),
            old(self).rem().len() >= 1 && old(self).rem()[0] == tag::NIL ==> r == Ok::<
                Option<u8>,
                MsgPackError,
            >(None) && final(self).off() == old(self).off() + 1,
            old(self).rem().len() >= 1 && old(self).rem()[0] != tag::NIL ==> (
            match wire::dec_u64(old(self).rem()) {
                Some((v, n)) => final(self).off() == old(self).off() + n && (if v <= u8::MAX {
                    r == Ok::<Option<u8>, MsgPackError>(Some(v as u8))
                } else {
                    r == Err::<Option<u8>, MsgPackError>(
                        MsgPackError::UnsignedOverflow { value: v as u64, bits: 8 },
                    )
                }),
                None => r == Err::<Option<u8>, MsgPackError>(
                    wire::dec_u64_err(old(self).rem(), old(self).off()),
                ),
            }),
    {
        if self.view.byte_length - self.view.byte_offset < 1 {
            return Err(
                MsgPackError::IndexOutOfRange {
                    requested: 1,
                    offset: self.view.byte_offset,
                    length: self.view.byte_length,
                },
            );
        }
        if self.is_next_nil() {
            return Ok(None);
        }
        match self.read_u8() {
            Ok(v) => Ok(Some(v)),
            Err(e) => Err(e),
        }
    }

    /// Reads an explicitly nullable unsigned 16-bit integer.
    pub fn read_nullable_u16(&mut self) -> (r: Result<Option<u16>, MsgPackError>)
        requires
            old(self).wf(),
        ensures
            Self::frame(old(self), final(self)),
            old(self).rem().len() == 0 ==> r == Err::<Option<u16>, MsgPackError>(
                wire::oor(1, old(self).off(), old(self).limit()),
            ) && final(self).off() == old(self).off(),
            old(self).rem().len() >= 1 && old(self).rem()[0] == tag::NIL ==> r == Ok::<
                Option<u16>,
                MsgPackError,
            >(None) && final(self).off() == old(self).off() + 1,
            old(self).rem().len() >= 1 && old(self).rem()[0] != tag::NIL ==> (
            match wire::dec_u64(old(self).rem()) {
                Some((v, n)) => final(self).off() == old(self).off() + n && (if v <= u16::MAX {
                    r == Ok::<Option<u16>, MsgPackError>(Some(v as u16))
                } else {
                    r == Err::<Option<u16>, MsgPackError>(
                        MsgPackError::UnsignedOverflow { value: v as u64, bits: 16 },
                    )
                }),
                None => r == Err::<Option<u16>, MsgPackError>(
                    wire::dec_u64_err(old(self).rem(), old(self).off()),
                ),
            }),
    {
        if self.view.byte_length - self.view.byte_offset < 1 {
            return Err(
                MsgPackError::IndexOutOfRange {
                    requested: 1,
                    offset: self.view.byte_offset,
                    length: self.view.byte_length,
                },
            );
        }
        if self.is_next_nil() {
            return Ok(None);
        }
        match self.read_u16() {
            Ok(v) => Ok(Some(v)),
            Err(e) => Err(e),
        }
    }

    /// Reads an explicitly nullable unsigned 32-bit integer.
    pub fn read_nullable_u32(&mut self) -> (r: Result<Option<u32>, MsgPackError>)
        requires
            old(self).wf(),
        ensures
            Self::frame(old(self), final(self)),
            old(self).rem().len() == 0 ==> r == Err::<Option<u32>, MsgPackError>(
                wire::oor(1, old(self).off(), old(self).limit()),
            ) && final(self).off() == old(self).off(),
            old(self).rem().len() >= 1 && old(self).rem()[0] == tag::NIL ==> r == Ok::<
                Option<u32>,
                MsgPackError,
            >(None) && final(self).off() == old(self).off() + 1,
            old(self).rem().len() >= 1 && old(self).rem()[0] != tag::NIL ==> (
            match wire::dec_u64(old(self).rem()) {
                Some((v, n)) => final(self).off() == old(self).off() + n && (if v <= u32::MAX {
                    r == Ok::<Option<u32>, MsgPackError>(Some(v as u32))
                } else {
                    r == Err::<Option<u32>, MsgPackError>(
                        MsgPackError::UnsignedOverflow { value: v as u64, bits: 32 },
                    )
                }),
                None => r == Err::<Option<u32>, MsgPackError>(
                    wire::dec_u64_err(old(self).rem(), old(self).off()),
                ),
            }),
    {
        if self.view.byte_length - self.view.byte_offset < 1 {
            return Err(
                MsgPackError::IndexOutOfRange {
                    requested: 1,
                    offset: self.view.byte_offset,
                    length: self.view.byte_length,
                },
            );
        }
        if self.is_next_nil() {
            return Ok(None);
        }
        match self.read_u32() {
            Ok(v) => Ok(Some(v)),
            Err(e) => Err(e),
        }
    }

    /// Reads an explicitly nullable unsigned 64-bit integer.
    pub fn read_nullable_u64(&mut self) -> (r: Result<Option<u64>, MsgPackError>)
        requires
            old(self).wf(),
        ensures
            Self::frame(old(self), final(self)),
            old(self).rem().len() == 0 ==> r == Err::<Option<u64>, MsgPackError>(
                wire::oor(1, old(self).off(), old(self).limit()),
            ) && final(self).off() == old(self).off(),
            old(self).rem().len() >= 1 && old(self).rem()[0] == tag::NIL ==> r == Ok::<
                Option<u64>,
                MsgPackError,
            >(None) && final(self).off() == old(self).off() + 1,
            old(self).rem().len() >= 1 && old(self).rem()[0] != tag::NIL ==> (
            match wire::dec_u64(old(self).rem()) {
                Some((v, n)) => r is Ok && r->Ok_0 is Some && r->Ok_0->0 as nat == v && final(self).off() == old(self).off() + n,
                None => r == Err::<Option<u64>, MsgPackError>(
                    wire::dec_u64_err(old(self).rem(), old(self).off()),
                ),
            }),
    {
        if self.view.byte_length - self.view.byte_offset < 1 {
            return Err(
                MsgPackError::IndexOutOfRange {
                    requested: 1,
                    offset: self.view.byte_offset,
                    length: self.view.byte_length,
                },
            );
        }
        if self.is_next_nil() {
            return Ok(None);
        }
        match self.read_u64() {
            Ok(v) => Ok(Some(v)),
            Err(e) => Err(e),
        }
    }

    /// Reads an explicitly nullable string.
    pub fn read_nullable_string(&mut self) -> (r: Result<Option<String>, MsgPackError>)
        requires
            old(self).wf(),
        ensures
            Self::frame(old(self), final(self)),
            old(self).rem().len() == 0 ==> r == Err::<Option<String>, MsgPackError>(
                wire::oor(1, old(self).off(), old(self).limit()),
            ) && final(self).off() == old(self).off(),
            old(self).rem().len() >= 1 && old(self).rem()[0] == tag::NIL ==> r == Ok::<
                Option<String>,
                MsgPackError,
            >(None) && final(self).off() == old(self).off() + 1,
            old(self).rem().len() >= 1 && old(self).rem()[0] != tag::NIL ==> (
            match wire::dec_str(old(self).rem()) {
                Some((payload, n)) => final(self).off() == old(self).off() + n && (
                if vstd::utf8::valid_utf8(payload) {
                    r is Ok && r->Ok_0 is Some && r->Ok_0->0@ == vstd::utf8::decode_utf8(payload)
                } else {
                    r == Err::<Option<String>, MsgPackError>(MsgPackError::InvalidUtf8)
                }),
                None => r == Err::<Option<String>, MsgPackError>(
                    wire::dec_str_err(old(self).rem(), old(self).off()),
                ),
            }),
    {
        if self.view.byte_length - self.view.byte_offset < 1 {
            return Err(
                MsgPackError::IndexOutOfRange {
                    requested: 1,
                    offset: self.view.byte_offset,
                    length: self.view.byte_length,
                },
            );
        }
        if self.is_next_nil() {
            return Ok(None);
        }
        match self.read_string() {
            Ok(v) => Ok(Some(v)),
            Err(e) => Err(e),
        }
    }

    /// Reads an arbitrary-precision integer: a string value whose UTF-8
    /// payload must parse as a decimal integer.
    pub fn read_bigint(&mut self) -> (r: Result<num_bigint::BigInt, MsgPackError>)
        requires
            old(self).wf(),
        ensures
            Self::frame(old(self), final(self)),
            match wire::dec_str(old(self).rem()) {
                Some((payload, n)) => final(self).off() == old(self).off() + n && (
                if !vstd::utf8::valid_utf8(payload) {
                    r == Err::<num_bigint::BigInt, MsgPackError>(MsgPackError::InvalidUtf8)
                } else if !crate::bigint::is_decimal_seq(vstd::utf8::decode_utf8(payload)) {
                    r == Err::<num_bigint::BigInt, MsgPackError>(MsgPackError::InvalidBigInt)
                } else {
                    r is Ok && crate::bigint::bigint_digits(r->Ok_0)
                        == crate::bigint::canonical_digits(vstd::utf8::decode_utf8(payload))
                }),
                None => r == Err::<num_bigint::BigInt, MsgPackError>(
                    wire::dec_str_err(old(self).rem(), old(self).off()),
                ),
            },
    {
        let s = match self.read_string() {
            Ok(s) => s,
            Err(e) => return Err(e),
        };
        match crate::bigint::bigint_from_decimal(s.as_str()) {
            Some(v) => Ok(v),
            None => Err(MsgPackError::InvalidBigInt),
        }
    }

    /// Reads an explicitly nullable arbitrary-precision integer.
    pub fn read_nullable_bigint(&mut self) -> (r: Result<
        Option<num_bigint::BigInt>,
        MsgPackError,
    >)
        requires
            old(self).wf(),
        ensures
            Self::frame(old(self), final(self)),
            old(self).rem().len() == 0 ==> r == Err::<Option<num_bigint::BigInt>, MsgPackError>(
                wire::oor(1, old(self).off(), old(self).limit()),
            ) && final(self).off() == old(self).off(),
            old(self).rem().len() >= 1 && old(self).rem()[0] == tag::NIL ==> r == Ok::<
                Option<num_bigint::BigInt>,
                MsgPackError,
            >(None) && final(self).off() == old(self).off() + 1,
            old(self).rem().len() >= 1 && old(self).rem()[0] != tag::NIL ==> (
            match wire::dec_str(old(self).rem()) {
                Some((payload, n)) => final(self).off() == old(self).off() + n && (
                if !vstd::utf8::valid_utf8(payload) {
                    r == Err::<Option<num_bigint::BigInt>, MsgPackError>(MsgPackError::InvalidUtf8)
                } else if !crate::bigint::is_decimal_seq(vstd::utf8::decode_utf8(payload)) {
                    r == Err::<Option<num_bigint::BigInt>, MsgPackError>(
                        MsgPackError::InvalidBigInt,
                    )
                } else {
                    r is Ok && r->Ok_0 is Some && crate::bigint::bigint_digits(r->Ok_0->0)
                        == crate::bigint::canonical_digits(vstd::utf8::decode_utf8(payload))
                }),
                None => r == Err::<Option<num_bigint::BigInt>, MsgPackError>(
                    wire::dec_str_err(old(self).rem(), old(self).off()),
                ),
            }),
    {
        if self.view.byte_length - self.view.byte_offset < 1 {
            return Err(
                MsgPackError::IndexOutOfRange {
                    requested: 1,
                    offset: self.view.byte_offset,
                    length: self.view.byte_length,
                },
            );
        }
        if self.is_next_nil() {
            return Ok(None);
        }
        match self.read_bigint() {
            Ok(v) => Ok(Some(v)),
            Err(e) => Err(e),
        }
    }

    /// Reads an explicitly nullable byte blob.
    pub fn read_nullable_bytes(&mut self) -> (r: Result<Option<Vec<u8>>, MsgPackError>)
        requires
            old(self).wf(),
        ensures
            Self::frame(old(self), final(self)),
            old(self).rem().len() == 0 ==> r == Err::<Option<Vec<u8>>, MsgPackError>(
                wire::oor(1, old(self).off(), old(self).limit()),
            ) && final(self).off() == old(self).off(),
            old(self).rem().len() >= 1 && old(self).rem()[0] == tag::NIL ==> r == Ok::<
                Option<Vec<u8>>,
                MsgPackError,
            >(None) && final(self).off() == old(self).off() + 1,
            old(self).rem().len() >= 1 && old(self).rem()[0] != tag::NIL ==> (
            match wire::dec_bytes(old(self).rem()) {
                Some((payload, n)) => r is Ok && r->Ok_0 is Some && r->Ok_0->0@ == payload
                    && final(self).off() == old(self).off() + n,
                None => r == Err::<Option<Vec<u8>>, MsgPackError>(
                    wire::dec_bytes_err(old(self).rem(), old(self).off()),
                ),
            }),
    {
        if self.view.byte_length - self.view.byte_offset < 1 {
            return Err(
                MsgPackError::IndexOutOfRange {
                    requested: 1,
                    offset: self.view.byte_offset,
                    length: self.view.byte_length,
                },
            );
        }
        if self.is_next_nil() {
            return Ok(None);
        }
        match self.read_bytes() {
            Ok(v) => Ok(Some(v)),
            Err(e) => Err(e),
        }
    }
}

/// One step of a schema-driven traversal: reads exactly one encoded value.
///
/// Aggregates are traversed cooperatively: the caller, normally generated
/// against a known schema, supplies the per-element reader, and the codec
/// invokes it once per slot.  That the reader consumes exactly one encoded
/// value per invocation is the caller's obligation, not one the codec can
/// detect — the contract here holds an implementation only to the cursor
/// frame: the buffer and its window stay as they are, and the offset only
/// moves forward.
pub trait ReadElement {
    /// The value one element decodes to.
    type Elem;

    /// Reads the next element from the wire.
    fn read_element(&mut self, dec: &mut ReadDecoder) -> (r: Result<Self::Elem, MsgPackError>)
        requires
            old(dec).wf(),
        ensures
            ReadDecoder::frame(old(dec), final(dec)),
    ;
}

impl ReadDecoder {
    /// Reads an array: its length, then one element per slot through the
    /// supplied reader, collected in wire order.  The read stops at the
    /// first failing element.
    pub fn read_array<V: ReadElement>(&mut self, func: &mut V) -> (r: Result<
        Vec<<V as ReadElement>::Elem>,
        MsgPackError,
    >)
        requires
            old(self).wf(),
        ensures
            Self::frame(old(self), final(self)),
            match wire::dec_arr_len(old(self).rem()) {
                Some((l, n)) => r is Ok ==> r->Ok_0@.len() == l,
                None => r == Err::<Vec<<V as ReadElement>::Elem>, MsgPackError>(
                    wire::dec_arr_len_err(old(self).rem(), old(self).off()),
                ),
            },
    {
        let length = match self.read_array_length() {
            Ok(l) => l,
            Err(e) => return Err(e),
        };
        let mut items: Vec<<V as ReadElement>::Elem> = Vec::new();
        let mut i: u32 = 0;
        while i < length
            invariant
                self.wf(),
                self.bytes() == old(self).bytes(),
                self.limit() == old(self).limit(),
                old(self).off() <= self.off() <= self.limit(),
                wire::dec_arr_len(old(self).rem()) is Some,
                (wire::dec_arr_len(old(self).rem())->0).0 == length as nat,
                i <= length,
                items@.len() == i,
            decreases length - i,
        {
            let item = match func.read_element(self) {
                Ok(x) => x,
                Err(e) => return Err(e),
            };
            items.push(item);
            i = i + 1;
        }
        Ok(items)
    }

    /// Reads a map: its entry count, then one key and one value per entry
    /// through the supplied readers, collected in wire order.
    pub fn read_map<K: ReadElement, V: ReadElement>(
        &mut self,
        key_fn: &mut K,
        value_fn: &mut V,
    ) -> (r: Result<Vec<(<K as ReadElement>::Elem, <V as ReadElement>::Elem)>, MsgPackError>)
        requires
            old(self).wf(),
        ensures
            Self::frame(old(self), final(self)),
            match wire::dec_map_len(old(self).rem()) {
                Some((l, n)) => r is Ok ==> r->Ok_0@.len() == l,
                None => r == Err::<
                    Vec<(<K as ReadElement>::Elem, <V as ReadElement>::Elem)>,
                    MsgPackError,
                >(wire::dec_map_len_err(old(self).rem(), old(self).off())),
            },
    {
        let length = match self.read_map_length() {
            Ok(l) => l,
            Err(e) => return Err(e),
        };
        let mut entries: Vec<(<K as ReadElement>::Elem, <V as ReadElement>::Elem)> = Vec::new();
        let mut i: u32 = 0;
        while i < length
            invariant
                self.wf(),
                self.bytes() == old(self).bytes(),
                self.limit() == old(self).limit(),
                old(self).off() <= self.off() <= self.limit(),
                wire::dec_map_len(old(self).rem()) is Some,
                (wire::dec_map_len(old(self).rem())->0).0 == length as nat,
                i <= length,
                entries@.len() == i,
            decreases length - i,
        {
            let key = match key_fn.read_element(self) {
                Ok(k) => k,
                Err(e) => return Err(e),
            };
            let value = match value_fn.read_element(self) {
                Ok(v) => v,
                Err(e) => return Err(e),
            };
            entries.push((key, value));
            i = i + 1;
        }
        Ok(entries)
    }

    /// Reads an explicitly nullable array: NIL means absent.
    pub fn read_nullable_array<V: ReadElement>(&mut self, func: &mut V) -> (r: Result<
        Option<Vec<<V as ReadElement>::Elem>>,
        MsgPackError,
    >)
        requires
            old(self).wf(),
        ensures
            Self::frame(old(self), final(self)),
            old(self).rem().len() == 0 ==> r == Err::<
                Option<Vec<<V as ReadElement>::Elem>>,
                MsgPackError,
            >(wire::oor(1, old(self).off(), old(self).limit())) && final(self).off() == old(
                self,
            ).off(),
            old(self).rem().len() >= 1 && old(self).rem()[0] == tag::NIL ==> r == Ok::<
                Option<Vec<<V as ReadElement>::Elem>>,
                MsgPackError,
            >(None) && final(self).off() == old(self).off() + 1,
            old(self).rem().len() >= 1 && old(self).rem()[0] != tag::NIL ==> (
            match wire::dec_arr_len(old(self).rem()) {
                Some((l, n)) => r is Ok ==> r->Ok_0 is Some && r->Ok_0->0@.len() == l,
                None => r == Err::<Option<Vec<<V as ReadElement>::Elem>>, MsgPackError>(
                    wire::dec_arr_len_err(old(self).rem(), old(self).off()),
                ),
            }),
    {
        if self.view.byte_length - self.view.byte_offset < 1 {
            return Err(
                MsgPackError::IndexOutOfRange {
                    requested: 1,
                    offset: self.view.byte_offset,
                    length: self.view.byte_length,
                },
            );
        }
        if self.is_next_nil() {
            return Ok(None);
        }
        match self.read_array(func) {
            Ok(items) => Ok(Some(items)),
            Err(e) => Err(e),
        }
    }

    /// Reads an explicitly nullable map: NIL means absent.
    pub fn read_nullable_map<K: ReadElement, V: ReadElement>(
        &mut self,
        key_fn: &mut K,
        value_fn: &mut V,
    ) -> (r: Result<
        Option<Vec<(<K as ReadElement>::Elem, <V as ReadElement>::Elem)>>,
        MsgPackError,
    >)
        requires
            old(self).wf(),
        ensures
            Self::frame(old(self), final(self)),
            old(self).rem().len() == 0 ==> r == Err::<
                Option<Vec<(<K as ReadElement>::Elem, <V as ReadElement>::Elem)>>,
                MsgPackError,
            >(wire::oor(1, old(self).off(), old(self).limit())) && final(self).off() == old(
                self,
            ).off(),
            old(self).rem().len() >= 1 && old(self).rem()[0] == tag::NIL ==> r == Ok::<
                Option<Vec<(<K as ReadElement>::Elem, <V as ReadElement>::Elem)>>,
                MsgPackError,
            >(None) && final(self).off() == old(self).off() + 1,
            old(self).rem().len() >= 1 && old(self).rem()[0] != tag::NIL ==> (
            match wire::dec_map_len(old(self).rem()) {
                Some((l, n)) => r is Ok ==> r->Ok_0 is Some && r->Ok_0->0@.len() == l,
                None => r == Err::<
                    Option<Vec<(<K as ReadElement>::Elem, <V as ReadElement>::Elem)>>,
                    MsgPackError,
                >(wire::dec_map_len_err(old(self).rem(), old(self).off())),
            }),
    {
        if self.view.byte_length - self.view.byte_offset < 1 {
            return Err(
                MsgPackError::IndexOutOfRange {
                    requested: 1,
                    offset: self.view.byte_offset,
                    length: self.view.byte_length,
                },
            );
        }
        if self.is_next_nil() {
            return Ok(None);
        }
        match self.read_map(key_fn, value_fn) {
            Ok(entries) => Ok(Some(entries)),
            Err(e) => Err(e),
        }
    }
}

/// Relies on `String::from_utf8`: it returns the string holding exactly the
/// given bytes when they are valid UTF-8, and fails exactly when they are
/// not.
#[verifier::external_body]
fn string_from_utf8(bytes: Vec<u8>) -> (r: Option<String>)
    ensures
        r is Some <==> vstd::utf8::valid_utf8(bytes@),
        r matches Some(s) ==> s@ == vstd::utf8::decode_utf8(bytes@),
{
    match String::from_utf8(bytes) {
        Ok(s) => Some(s),
        Err(_) => None,
    }
}

} // verus!
