//! The byte-writing encoder: the same operation surface as the sizer, but
//! backed by a cursor over a buffer the sizer measured.
//!
//! Every operation checks that the whole encoding fits before touching the
//! buffer: on success it writes exactly the encoding the specification
//! functions of [`crate::wire`] prescribe and advances past it; on failure
//! it reports the shortfall and leaves the buffer untouched.  A failure
//! here means the buffer was not sized for this value graph.

use vstd::prelude::*;

use crate::bigint;
use crate::data_view::{wrote, lemma_wrote_concat, DataView};
use crate::error::MsgPackError;
use crate::tag;
use crate::utils::BLOCK_MAX_SIZE;
use crate::wire;
use vstd::string::StringSliceAdditionalSpecFns;

verus! {

/// An encoder over one pre-sized buffer.
pub struct WriteEncoder {
    pub view: DataView,
}

impl WriteEncoder {
    /// The whole backing buffer.
    pub open spec fn bytes(&self) -> Seq<u8> {
        self.view.bytes()
    }

    /// The current write offset.
    pub open spec fn off(&self) -> int {
        self.view.off()
    }

    /// The logical buffer end.
    pub open spec fn limit(&self) -> int {
        self.view.limit()
    }

    pub open spec fn wf(&self) -> bool {
        self.view.wf()
    }

    /// What every successful write establishes: the encoding `data` stands
    /// at the old offset, everything else is untouched, and the offset has
    /// moved past it.
    pub open spec fn emitted(pre: &WriteEncoder, post: &WriteEncoder, data: Seq<u8>) -> bool {
        &&& wrote(pre.bytes(), post.bytes(), pre.off(), data)
        &&& post.off() == pre.off() + data.len()
        &&& post.limit() == pre.limit()
        &&& post.wf()
    }

    /// What every failed write establishes: nothing changed, and the error
    /// names the shortfall.
    pub open spec fn refused(
        pre: &WriteEncoder,
        post: &WriteEncoder,
        r: Result<(), MsgPackError>,
        need: int,
    ) -> bool {
        &&& r == Err::<(), MsgPackError>(wire::oor(need, pre.off(), pre.limit()))
        &&& post.bytes() == pre.bytes()
        &&& post.off() == pre.off()
        &&& post.limit() == pre.limit()
        &&& post.wf()
    }

    /// Wraps a buffer the sizer measured; it must fit the maximum block
    /// size.
    pub fn new(ua: &[u8]) -> (r: WriteEncoder)
        requires
            ua@.len() <= BLOCK_MAX_SIZE,
        ensures
            r.bytes() == ua@,
            r.off() == 0,
            r.limit() == ua@.len(),
            r.wf(),
    {
        let view = match DataView::new(ua) {
            Ok(view) => view,
            Err(_) => {
                // Unreachable: the precondition bounds the buffer length.
                proof {
                    assert(false);
                }
                DataView { buffer: Vec::new(), byte_offset: 0, byte_length: 0 }
            },
        };
        WriteEncoder { view }
    }

    /// The buffer as encoded so far.
    pub fn get_buffer(&self) -> (r: &Vec<u8>)
        ensures
            r@ == self.bytes(),
    {
        &self.view.buffer
    }

    /// How many bytes of the window remain unwritten.
    fn space(&self) -> (r: usize)
        requires
            self.wf(),
        ensures
            r == self.limit() - self.off(),
    {
        self.view.byte_length - self.view.byte_offset
    }

    /// Writes the one-byte NIL tag.
    pub fn write_nil(&mut self) -> (r: Result<(), MsgPackError>)
        requires
            old(self).wf(),
        ensures
            old(self).off() + 1 <= old(self).limit() ==> r is Ok && Self::emitted(
                old(self),
                final(self),
                wire::enc_nil(),
            ),
            old(self).off() + 1 > old(self).limit() ==> Self::refused(
                old(self),
                final(self),
                r,
                1,
            ),
    {
        proof {
            wire::lemma_be_bytes_one(tag::NIL);
        }
        match self.view.set_u8(tag::NIL) {
            Ok(_) => Ok(()),
            Err(e) => Err(e),
        }
    }

    /// Writes the TRUE or FALSE tag.
    pub fn write_bool(&mut self, value: bool) -> (r: Result<(), MsgPackError>)
        requires
            old(self).wf(),
        ensures
            old(self).off() + 1 <= old(self).limit() ==> r is Ok && Self::emitted(
                old(self),
                final(self),
                wire::enc_bool(value),
            ),
            old(self).off() + 1 > old(self).limit() ==> Self::refused(
                old(self),
                final(self),
                r,
                1,
            ),
    {
        let b = if value {
            tag::TRUE
        } else {
            tag::FALSE
        };
        proof {
            wire::lemma_be_bytes_one(b);
        }
        match self.view.set_u8(b) {
            Ok(_) => Ok(()),
            Err(e) => Err(e),
        }
    }

    /// Writes an unsigned integer in its narrowest wire form.
    pub fn write_u64(&mut self, value: u64) -> (r: Result<(), MsgPackError>)
        requires
            old(self).wf(),
        ensures
            old(self).off() + wire::enc_u64(value as nat).len() <= old(self).limit() ==> r is Ok
                && Self::emitted(old(self), final(self), wire::enc_u64(value as nat)),
            old(self).off() + wire::enc_u64(value as nat).len() > old(self).limit()
                ==> Self::refused(old(self), final(self), r, wire::enc_u64(value as nat).len() as int),
    {
        proof {
            wire::lemma_size_u64_is_enc_len(value as nat);
        }
        let need: usize = if value < 128 {
            1
        } else if value < 256 {
            2
        } else if value < 65536 {
            3
        } else if value < 0x1_0000_0000 {
            5
        } else {
            9
        };
        if need > self.space() {
            return Err(
                MsgPackError::IndexOutOfRange {
                    requested: need,
                    offset: self.view.byte_offset,
                    length: self.view.byte_length,
                },
            );
        }
        let ghost pre = *self;
        if value < 128 {
            proof {
                wire::lemma_be_bytes_one(value as u8);
            }
            match self.view.set_u8(value as u8) {
                Ok(_) => Ok(()),
                Err(e) => Err(e),
            }
        } else if value < 256 {
            proof {
                wire::lemma_be_bytes_one(tag::UINT8);
                wire::lemma_be_bytes_one(value as u8);
            }
            match self.view.set_u8(tag::UINT8) {
                Ok(_) => (),
                Err(e) => return Err(e),
            }
            let ghost mid = *self;
            match self.view.set_u8(value as u8) {
                Ok(_) => (),
                Err(e) => return Err(e),
            }
            proof {
                lemma_wrote_concat(
                    pre.bytes(),
                    mid.bytes(),
                    self.bytes(),
                    pre.off(),
                    seq![tag::UINT8],
                    seq![value as u8],
                );
                assert(wire::enc_u64(value as nat) =~= seq![tag::UINT8] + seq![value as u8]);
            }
            Ok(())
        } else if value < 65536 {
            proof {
                wire::lemma_be_bytes_one(tag::UINT16);
            }
            match self.view.set_u8(tag::UINT16) {
                Ok(_) => (),
                Err(e) => return Err(e),
            }
            let ghost mid = *self;
            match self.view.set_u16(value as u16) {
                Ok(_) => (),
                Err(e) => return Err(e),
            }
            proof {
                lemma_wrote_concat(
                    pre.bytes(),
                    mid.bytes(),
                    self.bytes(),
                    pre.off(),
                    seq![tag::UINT16],
                    wire::be_bytes(value as nat, 2),
                );
            }
            Ok(())
        } else if value < 0x1_0000_0000 {
            proof {
                wire::lemma_be_bytes_one(tag::UINT32);
            }
            match self.view.set_u8(tag::UINT32) {
                Ok(_) => (),
                Err(e) => return Err(e),
            }
            let ghost mid = *self;
            match self.view.set_u32(value as u32) {
                Ok(_) => (),
                Err(e) => return Err(e),
            }
            proof {
                lemma_wrote_concat(
                    pre.bytes(),
                    mid.bytes(),
                    self.bytes(),
                    pre.off(),
                    seq![tag::UINT32],
                    wire::be_bytes(value as nat, 4),
                );
            }
            Ok(())
        } else {
            proof {
                wire::lemma_be_bytes_one(tag::UINT64);
            }
            match self.view.set_u8(tag::UINT64) {
                Ok(_) => (),
                Err(e) => return Err(e),
            }
            let ghost mid = *self;
            match self.view.set_u64(value) {
                Ok(_) => (),
                Err(e) => return Err(e),
            }
            proof {
                lemma_wrote_concat(
                    pre.bytes(),
                    mid.bytes(),
                    self.bytes(),
                    pre.off(),
                    seq![tag::UINT64],
                    wire::be_bytes(value as nat, 8),
                );
            }
            Ok(())
        }
    }

    /// Writes a signed integer in its narrowest wire form: one byte inside
    /// the fixed-int windows, else a tagged two's-complement field.
    pub fn write_i64(&mut self, value: i64) -> (r: Result<(), MsgPackError>)
        requires
            old(self).wf(),
        ensures
            old(self).off() + wire::enc_i64(value as int).len() <= old(self).limit() ==> r is Ok
                && Self::emitted(old(self), final(self), wire::enc_i64(value as int)),
            old(self).off() + wire::enc_i64(value as int).len() > old(self).limit()
                ==> Self::refused(old(self), final(self), r, wire::enc_i64(value as int).len() as int),
    {
        proof {
            wire::lemma_size_i64_is_enc_len(value as int);
            wire::lemma_pow256_values();
        }
        let need: usize = if value >= -32 && value < 128 {
            1
        } else if value >= -128 && value < 128 {
            2
        } else if value >= -32768 && value < 32768 {
            3
        } else if value >= -0x8000_0000 && value < 0x8000_0000 {
            5
        } else {
            9
        };
        if need > self.space() {
            return Err(
                MsgPackError::IndexOutOfRange {
                    requested: need,
                    offset: self.view.byte_offset,
                    length: self.view.byte_length,
                },
            );
        }
        let ghost pre = *self;
        if value >= -32 && value < 128 {
            let b: u8 = if value >= 0 {
                value as u8
            } else {
                ((value as i16) + 0x100) as u8
            };
            proof {
                wire::lemma_be_bytes_one(b);
            }
            match self.view.set_u8(b) {
                Ok(_) => Ok(()),
                Err(e) => Err(e),
            }
        } else if value >= -128 && value < 128 {
            let b: u8 = if value >= 0 {
                value as u8
            } else {
                ((value as i16) + 0x100) as u8
            };
            proof {
                wire::lemma_be_bytes_one(tag::INT8);
                wire::lemma_be_bytes_one(b);
            }
            match self.view.set_u8(tag::INT8) {
                Ok(_) => (),
                Err(e) => return Err(e),
            }
            let ghost mid = *self;
            match self.view.set_u8(b) {
                Ok(_) => (),
                Err(e) => return Err(e),
            }
            proof {
                lemma_wrote_concat(
                    pre.bytes(),
                    mid.bytes(),
                    self.bytes(),
                    pre.off(),
                    seq![tag::INT8],
                    seq![b],
                );
                assert(wire::enc_i64(value as int) =~= seq![tag::INT8] + seq![b]);
            }
            Ok(())
        } else if value >= -32768 && value < 32768 {
            proof {
                wire::lemma_be_bytes_one(tag::INT16);
            }
            match self.view.set_u8(tag::INT16) {
                Ok(_) => (),
                Err(e) => return Err(e),
            }
            let ghost mid = *self;
            match self.view.set_i16(value as i16) {
                Ok(_) => (),
                Err(e) => return Err(e),
            }
            proof {
                lemma_wrote_concat(
                    pre.bytes(),
                    mid.bytes(),
                    self.bytes(),
                    pre.off(),
                    seq![tag::INT16],
                    wire::be_bytes(wire::to_twos(value as int, 2), 2),
                );
            }
            Ok(())
        } else if value >= -0x8000_0000 && value < 0x8000_0000 {
            proof {
                wire::lemma_be_bytes_one(tag::INT32);
            }
            match self.view.set_u8(tag::INT32) {
                Ok(_) => (),
                Err(e) => return Err(e),
            }
            let ghost mid = *self;
            match self.view.set_i32(value as i32) {
                Ok(_) => (),
                Err(e) => return Err(e),
            }
            proof {
                lemma_wrote_concat(
                    pre.bytes(),
                    mid.bytes(),
                    self.bytes(),
                    pre.off(),
                    seq![tag::INT32],
                    wire::be_bytes(wire::to_twos(value as int, 4), 4),
                );
            }
            Ok(())
        } else {
            proof {
                wire::lemma_be_bytes_one(tag::INT64);
            }
            match self.view.set_u8(tag::INT64) {
                Ok(_) => (),
                Err(e) => return Err(e),
            }
            let ghost mid = *self;
            match self.view.set_i64(value) {
                Ok(_) => (),
                Err(e) => return Err(e),
            }
            proof {
                lemma_wrote_concat(
                    pre.bytes(),
                    mid.bytes(),
                    self.bytes(),
                    pre.off(),
                    seq![tag::INT64],
                    wire::be_bytes(wire::to_twos(value as int, 8), 8),
                );
            }
            Ok(())
        }
    }

    /// Writes a signed 8-bit integer.
    pub fn write_i8(&mut self, value: i8) -> (r: Result<(), MsgPackError>)
        requires
            old(self).wf(),
        ensures
            old(self).off() + wire::enc_i64(value as int).len() <= old(self).limit() ==> r is Ok
                && Self::emitted(old(self), final(self), wire::enc_i64(value as int)),
            old(self).off() + wire::enc_i64(value as int).len() > old(self).limit()
                ==> Self::refused(old(self), final(self), r, wire::enc_i64(value as int).len() as int),
    {
        self.write_i64(value as i64)
    }

    /// Writes a signed 16-bit integer.
    pub fn write_i16(&mut self, value: i16) -> (r: Result<(), MsgPackError>)
        requires
            old(self).wf(),
        ensures
            old(self).off() + wire::enc_i64(value as int).len() <= old(self).limit() ==> r is Ok
                && Self::emitted(old(self), final(self), wire::enc_i64(value as int)),
            old(self).off() + wire::enc_i64(value as int).len() > old(self).limit()
                ==> Self::refused(old(self), final(self), r, wire::enc_i64(value as int).len() as int),
    {
        self.write_i64(value as i64)
    }

    /// Writes a signed 32-bit integer.
    pub fn write_i32(&mut self, value: i32) -> (r: Result<(), MsgPackError>)
        requires
            old(self).wf(),
        ensures
            old(self).off() + wire::enc_i64(value as int).len() <= old(self).limit() ==> r is Ok
                && Self::emitted(old(self), final(self), wire::enc_i64(value as int)),
            old(self).off() + wire::enc_i64(value as int).len() > old(self).limit()
                ==> Self::refused(old(self), final(self), r, wire::enc_i64(value as int).len() as int),
    {
        self.write_i64(value as i64)
    }

    /// Writes an unsigned 8-bit integer.
    pub fn write_u8(&mut self, value: u8) -> (r: Result<(), MsgPackError>)
        requires
            old(self).wf(),
        ensures
            old(self).off() + wire::enc_u64(value as nat).len() <= old(self).limit() ==> r is Ok
                && Self::emitted(old(self), final(self), wire::enc_u64(value as nat)),
            old(self).off() + wire::enc_u64(value as nat).len() > old(self).limit()
                ==> Self::refused(old(self), final(self), r, wire::enc_u64(value as nat).len() as int),
    {
        self.write_u64(value as u64)
    }

    /// Writes an unsigned 16-bit integer.
    pub fn write_u16(&mut self, value: u16) -> (r: Result<(), MsgPackError>)
        requires
            old(self).wf(),
        ensures
            old(self).off() + wire::enc_u64(value as nat).len() <= old(self).limit() ==> r is Ok
                && Self::emitted(old(self), final(self), wire::enc_u64(value as nat)),
            old(self).off() + wire::enc_u64(value as nat).len() > old(self).limit()
                ==> Self::refused(old(self), final(self), r, wire::enc_u64(value as nat).len() as int),
    {
        self.write_u64(value as u64)
    }

    /// Writes an unsigned 32-bit integer.
    pub fn write_u32(&mut self, value: u32) -> (r: Result<(), MsgPackError>)
        requires
            old(self).wf(),
        ensures
            old(self).off() + wire::enc_u64(value as nat).len() <= old(self).limit() ==> r is Ok
                && Self::emitted(old(self), final(self), wire::enc_u64(value as nat)),
            old(self).off() + wire::enc_u64(value as nat).len() > old(self).limit()
                ==> Self::refused(old(self), final(self), r, wire::enc_u64(value as nat).len() as int),
    {
        self.write_u64(value as u64)
    }

    /// Writes a 32-bit float from its raw bit pattern: the FLOAT32 tag and
    /// four big-endian bytes, always full width.
    pub fn write_f32_bits(&mut self, bits: u32) -> (r: Result<(), MsgPackError>)
        requires
            old(self).wf(),
        ensures
            old(self).off() + 5 <= old(self).limit() ==> r is Ok && Self::emitted(
                old(self),
                final(self),
                wire::enc_f32_bits(bits as nat),
            ),
            old(self).off() + 5 > old(self).limit() ==> Self::refused(old(self), final(self), r, 5),
    {
        proof {
            wire::lemma_be_bytes_len(bits as nat, 4);
        }
        if 5 > self.space() {
            return Err(
                MsgPackError::IndexOutOfRange {
                    requested: 5,
                    offset: self.view.byte_offset,
                    length: self.view.byte_length,
                },
            );
        }
        let ghost pre = *self;
        proof {
            wire::lemma_be_bytes_one(tag::FLOAT32);
        }
        match self.view.set_u8(tag::FLOAT32) {
            Ok(_) => (),
            Err(e) => return Err(e),
        }
        let ghost mid = *self;
        match self.view.set_u32(bits) {
            Ok(_) => (),
            Err(e) => return Err(e),
        }
        proof {
            lemma_wrote_concat(
                pre.bytes(),
                mid.bytes(),
                self.bytes(),
                pre.off(),
                seq![tag::FLOAT32],
                wire::be_bytes(bits as nat, 4),
            );
        }
        Ok(())
    }

    /// Writes a 64-bit float from its raw bit pattern: the FLOAT64 tag and
    /// eight big-endian bytes.
    pub fn write_f64_bits(&mut self, bits: u64) -> (r: Result<(), MsgPackError>)
        requires
            old(self).wf(),
        ensures
            old(self).off() + 9 <= old(self).limit() ==> r is Ok && Self::emitted(
                old(self),
                final(self),
                wire::enc_f64_bits(bits as nat),
            ),
            old(self).off() + 9 > old(self).limit() ==> Self::refused(old(self), final(self), r, 9),
    {
        proof {
            wire::lemma_be_bytes_len(bits as nat, 8);
        }
        if 9 > self.space() {
            return Err(
                MsgPackError::IndexOutOfRange {
                    requested: 9,
                    offset: self.view.byte_offset,
                    length: self.view.byte_length,
                },
            );
        }
        let ghost pre = *self;
        proof {
            wire::lemma_be_bytes_one(tag::FLOAT64);
        }
        match self.view.set_u8(tag::FLOAT64) {
            Ok(_) => (),
            Err(e) => return Err(e),
        }
        let ghost mid = *self;
        match self.view.set_u64(bits) {
            Ok(_) => (),
            Err(e) => return Err(e),
        }
        proof {
            lemma_wrote_concat(
                pre.bytes(),
                mid.bytes(),
                self.bytes(),
                pre.off(),
                seq![tag::FLOAT64],
                wire::be_bytes(bits as nat, 8),
            );
        }
        Ok(())
    }

    /// Writes a nullable 32-bit float bit pattern: NIL when absent.
    pub fn write_nullable_f32_bits(&mut self, bits: Option<u32>) -> (r: Result<(), MsgPackError>)
        requires
            old(self).wf(),
        ensures
            ({
                let e = match bits {
                    Some(v) => wire::enc_f32_bits(v as nat),
                    None => wire::enc_nil(),
                };
                &&& old(self).off() + e.len() <= old(self).limit() ==> r is Ok && Self::emitted(
                    old(self),
                    final(self),
                    e,
                )
                &&& old(self).off() + e.len() > old(self).limit() ==> Self::refused(
                    old(self),
                    final(self),
                    r,
                    e.len() as int,
                )
            }),
    {
        proof {
            if bits is Some {
                wire::lemma_be_bytes_len(bits->0 as nat, 4);
            }
        }
        match bits {
            None => self.write_nil(),
            Some(v) => self.write_f32_bits(v),
        }
    }

    /// Writes a nullable 64-bit float bit pattern: NIL when absent.
    pub fn write_nullable_f64_bits(&mut self, bits: Option<u64>) -> (r: Result<(), MsgPackError>)
        requires
            old(self).wf(),
        ensures
            ({
                let e = match bits {
                    Some(v) => wire::enc_f64_bits(v as nat),
                    None => wire::enc_nil(),
                };
                &&& old(self).off() + e.len() <= old(self).limit() ==> r is Ok && Self::emitted(
                    old(self),
                    final(self),
                    e,
                )
                &&& old(self).off() + e.len() > old(self).limit() ==> Self::refused(
                    old(self),
                    final(self),
                    r,
                    e.len() as int,
                )
            }),
    {
        proof {
            if bits is Some {
                wire::lemma_be_bytes_len(bits->0 as nat, 8);
            }
        }
        match bits {
            None => self.write_nil(),
            Some(v) => self.write_f64_bits(v),
        }
    }

    /// Writes a string length prefix: fixed string below 32, else
    /// STR8/16/32.
    pub fn write_string_length(&mut self, length: u32) -> (r: Result<(), MsgPackError>)
        requires
            old(self).wf(),
        ensures
            old(self).off() + wire::enc_str_len(length as nat).len() <= old(self).limit() ==> r
                is Ok && Self::emitted(old(self), final(self), wire::enc_str_len(length as nat)),
            old(self).off() + wire::enc_str_len(length as nat).len() > old(self).limit()
                ==> Self::refused(
                old(self),
                final(self),
                r,
                wire::enc_str_len(length as nat).len() as int,
            ),
    {
        proof {
            wire::lemma_size_str_len_is_enc_len(length as nat);
        }
        let need: usize = if length < 32 {
            1
        } else if length <= 0xff {
            2
        } else if length <= 0xffff {
            3
        } else {
            5
        };
        if need > self.space() {
            return Err(
                MsgPackError::IndexOutOfRange {
                    requested: need,
                    offset: self.view.byte_offset,
                    length: self.view.byte_length,
                },
            );
        }
        let ghost pre = *self;
        if length < 32 {
            let b: u8 = 0xa0 + (length as u8);
            proof {
                wire::lemma_be_bytes_one(b);
            }
            match self.view.set_u8(b) {
                Ok(_) => Ok(()),
                Err(e) => Err(e),
            }
        } else if length <= 0xff {
            proof {
                wire::lemma_be_bytes_one(tag::STR8);
                wire::lemma_be_bytes_one(length as u8);
            }
            match self.view.set_u8(tag::STR8) {
                Ok(_) => (),
                Err(e) => return Err(e),
            }
            let ghost mid = *self;
            match self.view.set_u8(length as u8) {
                Ok(_) => (),
                Err(e) => return Err(e),
            }
            proof {
                lemma_wrote_concat(
                    pre.bytes(),
                    mid.bytes(),
                    self.bytes(),
                    pre.off(),
                    seq![tag::STR8],
                    seq![length as u8],
                );
                assert(wire::enc_str_len(length as nat) =~= seq![tag::STR8] + seq![length as u8]);
            }
            Ok(())
        } else if length <= 0xffff {
            proof {
                wire::lemma_be_bytes_one(tag::STR16);
            }
            match self.view.set_u8(tag::STR16) {
                Ok(_) => (),
                Err(e) => return Err(e),
            }
            let ghost mid = *self;
            match self.view.set_u16(length as u16) {
                Ok(_) => (),
                Err(e) => return Err(e),
            }
            proof {
                lemma_wrote_concat(
                    pre.bytes(),
                    mid.bytes(),
                    self.bytes(),
                    pre.off(),
                    seq![tag::STR16],
                    wire::be_bytes(length as nat, 2),
                );
            }
            Ok(())
        } else {
            proof {
                wire::lemma_be_bytes_one(tag::STR32);
            }
            match self.view.set_u8(tag::STR32) {
                Ok(_) => (),
                Err(e) => return Err(e),
            }
            let ghost mid = *self;
            match self.view.set_u32(length) {
                Ok(_) => (),
                Err(e) => return Err(e),
            }
            proof {
                lemma_wrote_concat(
                    pre.bytes(),
                    mid.bytes(),
                    self.bytes(),
                    pre.off(),
                    seq![tag::STR32],
                    wire::be_bytes(length as nat, 4),
                );
            }
            Ok(())
        }
    }

    /// Writes a whole string: its length prefix, then its UTF-8 bytes.
    pub fn write_string(&mut self, value: &str) -> (r: Result<(), MsgPackError>)
        requires
            old(self).wf(),
            value.spec_bytes().len() <= u32::MAX,
            value.spec_bytes().len() + 5 <= usize::MAX,
        ensures
            old(self).off() + wire::enc_string(value.spec_bytes()).len() <= old(self).limit()
                ==> r is Ok && Self::emitted(
                old(self),
                final(self),
                wire::enc_string(value.spec_bytes()),
            ),
            old(self).off() + wire::enc_string(value.spec_bytes()).len() > old(self).limit()
                ==> Self::refused(
                old(self),
                final(self),
                r,
                wire::enc_string(value.spec_bytes()).len() as int,
            ),
    {
        proof {
            wire::lemma_size_str_len_is_enc_len(value.spec_bytes().len());
        }
        let n = value.len();
        let prefix_need: usize = if n < 32 {
            1
        } else if n <= 0xff {
            2
        } else if n <= 0xffff {
            3
        } else {
            5
        };
        let need = prefix_need + n;
        if need > self.space() {
            return Err(
                MsgPackError::IndexOutOfRange {
                    requested: need,
                    offset: self.view.byte_offset,
                    length: self.view.byte_length,
                },
            );
        }
        let ghost pre = *self;
        match self.write_string_length(n as u32) {
            Ok(_) => (),
            Err(e) => return Err(e),
        }
        let ghost mid = *self;
        match self.view.set_bytes(value.as_bytes()) {
            Ok(_) => (),
            Err(e) => return Err(e),
        }
        proof {
            lemma_wrote_concat(
                pre.bytes(),
                mid.bytes(),
                self.bytes(),
                pre.off(),
                wire::enc_str_len(value.spec_bytes().len()),
                value.spec_bytes(),
            );
        }
        Ok(())
    }

    /// Writes a byte-blob length prefix: STR8/16/32, never the fixed
    /// window.
    pub fn write_bytes_length(&mut self, length: u32) -> (r: Result<(), MsgPackError>)
        requires
            old(self).wf(),
        ensures
            old(self).off() + wire::enc_bytes_len(length as nat).len() <= old(self).limit() ==> r
                is Ok && Self::emitted(old(self), final(self), wire::enc_bytes_len(length as nat)),
            old(self).off() + wire::enc_bytes_len(length as nat).len() > old(self).limit()
                ==> Self::refused(
                old(self),
                final(self),
                r,
                wire::enc_bytes_len(length as nat).len() as int,
            ),
    {
        proof {
            wire::lemma_size_bytes_len_is_enc_len(length as nat);
        }
        let need: usize = if length <= 0xff {
            2
        } else if length <= 0xffff {
            3
        } else {
            5
        };
        if need > self.space() {
            return Err(
                MsgPackError::IndexOutOfRange {
                    requested: need,
                    offset: self.view.byte_offset,
                    length: self.view.byte_length,
                },
            );
        }
        let ghost pre = *self;
        if length <= 0xff {
            proof {
                wire::lemma_be_bytes_one(tag::STR8);
                wire::lemma_be_bytes_one(length as u8);
            }
            match self.view.set_u8(tag::STR8) {
                Ok(_) => (),
                Err(e) => return Err(e),
            }
            let ghost mid = *self;
            match self.view.set_u8(length as u8) {
                Ok(_) => (),
                Err(e) => return Err(e),
            }
            proof {
                lemma_wrote_concat(
                    pre.bytes(),
                    mid.bytes(),
                    self.bytes(),
                    pre.off(),
                    seq![tag::STR8],
                    seq![length as u8],
                );
                assert(wire::enc_bytes_len(length as nat) =~= seq![tag::STR8] + seq![length as u8]);
            }
            Ok(())
        } else if length <= 0xffff {
            proof {
                wire::lemma_be_bytes_one(tag::STR16);
            }
            match self.view.set_u8(tag::STR16) {
                Ok(_) => (),
                Err(e) => return Err(e),
            }
            let ghost mid = *self;
            match self.view.set_u16(length as u16) {
                Ok(_) => (),
                Err(e) => return Err(e),
            }
            proof {
                lemma_wrote_concat(
                    pre.bytes(),
                    mid.bytes(),
                    self.bytes(),
                    pre.off(),
                    seq![tag::STR16],
                    wire::be_bytes(length as nat, 2),
                );
            }
            Ok(())
        } else {
            proof {
                wire::lemma_be_bytes_one(tag::STR32);
            }
            match self.view.set_u8(tag::STR32) {
                Ok(_) => (),
                Err(e) => return Err(e),
            }
            let ghost mid = *self;
            match self.view.set_u32(length) {
                Ok(_) => (),
                Err(e) => return Err(e),
            }
            proof {
                lemma_wrote_concat(
                    pre.bytes(),
                    mid.bytes(),
                    self.bytes(),
                    pre.off(),
                    seq![tag::STR32],
                    wire::be_bytes(length as nat, 4),
                );
            }
            Ok(())
        }
    }

    /// Writes a whole byte blob: a single NIL byte when empty, else length
    /// prefix and payload.
    pub fn write_bytes(&mut self, value: &[u8]) -> (r: Result<(), MsgPackError>)
        requires
            old(self).wf(),
            value@.len() <= u32::MAX,
            value@.len() + 5 <= usize::MAX,
        ensures
            old(self).off() + wire::enc_bytes(value@).len() <= old(self).limit() ==> r is Ok
                && Self::emitted(old(self), final(self), wire::enc_bytes(value@)),
            old(self).off() + wire::enc_bytes(value@).len() > old(self).limit() ==> Self::refused(
                old(self),
                final(self),
                r,
                wire::enc_bytes(value@).len() as int,
            ),
    {
        proof {
            wire::lemma_size_bytes_len_is_enc_len(value@.len());
        }
        if value.len() == 0 {
            return self.write_nil();
        }
        let n = value.len();
        let prefix_need: usize = if n <= 0xff {
            2
        } else if n <= 0xffff {
            3
        } else {
            5
        };
        let need = prefix_need + n;
        if need > self.space() {
            return Err(
                MsgPackError::IndexOutOfRange {
                    requested: need,
                    offset: self.view.byte_offset,
                    length: self.view.byte_length,
                },
            );
        }
        let ghost pre = *self;
        match self.write_bytes_length(n as u32) {
            Ok(_) => (),
            Err(e) => return Err(e),
        }
        let ghost mid = *self;
        match self.view.set_bytes(value) {
            Ok(_) => (),
            Err(e) => return Err(e),
        }
        proof {
            lemma_wrote_concat(
                pre.bytes(),
                mid.bytes(),
                self.bytes(),
                pre.off(),
                wire::enc_bytes_len(value@.len()),
                value@,
            );
        }
        Ok(())
    }

    /// Writes an arbitrary-precision integer as its decimal string.  The
    /// string is the value's own decimal form, already canonical, so a
    /// later read of this value parses back to an integer with the same
    /// digits.
    pub fn write_bigint(&mut self, value: num_bigint::BigInt) -> (r: Result<(), MsgPackError>)
        requires
            old(self).wf(),
            vstd::utf8::encode_utf8(bigint::bigint_digits(value)).len() <= u32::MAX,
            vstd::utf8::encode_utf8(bigint::bigint_digits(value)).len() + 5 <= usize::MAX,
        ensures
            bigint::is_decimal_seq(bigint::bigint_digits(value)),
            bigint::canonical_digits(bigint::bigint_digits(value)) == bigint::bigint_digits(value),
            old(self).off() + wire::enc_string(
                vstd::utf8::encode_utf8(bigint::bigint_digits(value)),
            ).len() <= old(self).limit() ==> r is Ok && Self::emitted(
                old(self),
                final(self),
                wire::enc_string(vstd::utf8::encode_utf8(bigint::bigint_digits(value))),
            ),
            old(self).off() + wire::enc_string(
                vstd::utf8::encode_utf8(bigint::bigint_digits(value)),
            ).len() > old(self).limit() ==> Self::refused(
                old(self),
                final(self),
                r,
                wire::enc_string(vstd::utf8::encode_utf8(bigint::bigint_digits(value))).len() as int,
            ),
    {
        let val_str = bigint::bigint_to_decimal(&value);
        self.write_string(val_str.as_str())
    }

    /// Writes an array length prefix: fixed array below 16, else
    /// ARRAY16/32.
    pub fn write_array_length(&mut self, length: u32) -> (r: Result<(), MsgPackError>)
        requires
            old(self).wf(),
        ensures
            old(self).off() + wire::enc_arr_len(length as nat).len() <= old(self).limit() ==> r
                is Ok && Self::emitted(old(self), final(self), wire::enc_arr_len(length as nat)),
            old(self).off() + wire::enc_arr_len(length as nat).len() > old(self).limit()
                ==> Self::refused(
                old(self),
                final(self),
                r,
                wire::enc_arr_len(length as nat).len() as int,
            ),
    {
        proof {
            wire::lemma_size_arr_len_is_enc_len(length as nat);
        }
        let need: usize = if length < 16 {
            1
        } else if length <= 0xffff {
            3
        } else {
            5
        };
        if need > self.space() {
            return Err(
                MsgPackError::IndexOutOfRange {
                    requested: need,
                    offset: self.view.byte_offset,
                    length: self.view.byte_length,
                },
            );
        }
        let ghost pre = *self;
        if length < 16 {
            let b: u8 = 0x90 + (length as u8);
            proof {
                wire::lemma_be_bytes_one(b);
            }
            match self.view.set_u8(b) {
                Ok(_) => Ok(()),
                Err(e) => Err(e),
            }
        } else if length <= 0xffff {
            proof {
                wire::lemma_be_bytes_one(tag::ARRAY16);
            }
            match self.view.set_u8(tag::ARRAY16) {
                Ok(_) => (),
                Err(e) => return Err(e),
            }
            let ghost mid = *self;
            match self.view.set_u16(length as u16) {
                Ok(_) => (),
                Err(e) => return Err(e),
            }
            proof {
                lemma_wrote_concat(
                    pre.bytes(),
                    mid.bytes(),
                    self.bytes(),
                    pre.off(),
                    seq![tag::ARRAY16],
                    wire::be_bytes(length as nat, 2),
                );
            }
            Ok(())
        } else {
            proof {
                wire::lemma_be_bytes_one(tag::ARRAY32);
            }
            match self.view.set_u8(tag::ARRAY32) {
                Ok(_) => (),
                Err(e) => return Err(e),
            }
            let ghost mid = *self;
            match self.view.set_u32(length) {
                Ok(_) => (),
                Err(e) => return Err(e),
            }
            proof {
                lemma_wrote_concat(
                    pre.bytes(),
                    mid.bytes(),
                    self.bytes(),
                    pre.off(),
                    seq![tag::ARRAY32],
                    wire::be_bytes(length as nat, 4),
                );
            }
            Ok(())
        }
    }

    /// Writes a map length prefix: fixed map below 16, else MAP16/32.
    pub fn write_map_length(&mut self, length: u32) -> (r: Result<(), MsgPackError>)
        requires
            old(self).wf(),
        ensures
            old(self).off() + wire::enc_map_len(length as nat).len() <= old(self).limit() ==> r
                is Ok && Self::emitted(old(self), final(self), wire::enc_map_len(length as nat)),
            old(self).off() + wire::enc_map_len(length as nat).len() > old(self).limit()
                ==> Self::refused(
                old(self),
                final(self),
                r,
                wire::enc_map_len(length as nat).len() as int,
            ),
    {
        proof {
            wire::lemma_size_map_len_is_enc_len(length as nat);
        }
        let need: usize = if length < 16 {
            1
        } else if length <= 0xffff {
            3
        } else {
            5
        };
        if need > self.space() {
            return Err(
                MsgPackError::IndexOutOfRange {
                    requested: need,
                    offset: self.view.byte_offset,
                    length: self.view.byte_length,
                },
            );
        }
        let ghost pre = *self;
        if length < 16 {
            let b: u8 = 0x80 + (length as u8);
            proof {
                wire::lemma_be_bytes_one(b);
            }
            match self.view.set_u8(b) {
                Ok(_) => Ok(()),
                Err(e) => Err(e),
            }
        } else if length <= 0xffff {
            proof {
                wire::lemma_be_bytes_one(tag::MAP16);
            }
            match self.view.set_u8(tag::MAP16) {
                Ok(_) => (),
                Err(e) => return Err(e),
            }
            let ghost mid = *self;
            match self.view.set_u16(length as u16) {
                Ok(_) => (),
                Err(e) => return Err(e),
            }
            proof {
                lemma_wrote_concat(
                    pre.bytes(),
                    mid.bytes(),
                    self.bytes(),
                    pre.off(),
                    seq![tag::MAP16],
                    wire::be_bytes(length as nat, 2),
                );
            }
            Ok(())
        } else {
            proof {
                wire::lemma_be_bytes_one(tag::MAP32);
            }
            match self.view.set_u8(tag::MAP32) {
                Ok(_) => (),
                Err(e) => return Err(e),
            }
            let ghost mid = *self;
            match self.view.set_u32(length) {
                Ok(_) => (),
                Err(e) => return Err(e),
            }
            proof {
                lemma_wrote_concat(
                    pre.bytes(),
                    mid.bytes(),
                    self.bytes(),
                    pre.off(),
                    seq![tag::MAP32],
                    wire::be_bytes(length as nat, 4),
                );
            }
            Ok(())
        }
    }

    /// Writes a nullable boolean: NIL when absent.
    pub fn write_nullable_bool(&mut self, value: Option<bool>) -> (r: Result<(), MsgPackError>)
        requires
            old(self).wf(),
        ensures
            ({
                let e = match value {
                    Some(v) => wire::enc_bool(v),
                    None => wire::enc_nil(),
                };
                &&& old(self).off() + e.len() <= old(self).limit() ==> r is Ok && Self::emitted(
                    old(self),
                    final(self),
                    e,
                )
                &&& old(self).off() + e.len() > old(self).limit() ==> Self::refused(
                    old(self),
                    final(self),
                    r,
                    e.len() as int,
                )
            }),
    {
        match value {
            None => self.write_nil(),
            Some(v) => self.write_bool(v),
        }
    }

    /// Writes a nullable signed 8-bit integer: NIL when absent.
    pub fn write_nullable_i8(&mut self, value: Option<i8>) -> (r: Result<(), MsgPackError>)
        requires
            old(self).wf(),
        ensures
            ({
                let e = match value {
                    Some(v) => wire::enc_i64(v as int),
                    None => wire::enc_nil(),
                };
                &&& old(self).off() + e.len() <= old(self).limit() ==> r is Ok && Self::emitted(
                    old(self),
                    final(self),
                    e,
                )
                &&& old(self).off() + e.len() > old(self).limit() ==> Self::refused(
                    old(self),
                    final(self),
                    r,
                    e.len() as int,
                )
            }),
    {
        match value {
            None => self.write_nil(),
            Some(v) => self.write_i8(v),
        }
    }

    /// Writes a nullable signed 16-bit integer: NIL when absent.
    pub fn write_nullable_i16(&mut self, value: Option<i16>) -> (r: Result<(), MsgPackError>)
        requires
            old(self).wf(),
        ensures
            ({
                let e = match value {
                    Some(v) => wire::enc_i64(v as int),
                    None => wire::enc_nil(),
                };
                &&& old(self).off() + e.len() <= old(self).limit() ==> r is Ok && Self::emitted(
                    old(self),
                    final(self),
                    e,
                )
                &&& old(self).off() + e.len() > old(self).limit() ==> Self::refused(
                    old(self),
                    final(self),
                    r,
                    e.len() as int,
                )
            }),
    {
        match value {
            None => self.write_nil(),
            Some(v) => self.write_i16(v),
        }
    }

    /// Writes a nullable signed 32-bit integer: NIL when absent.
    pub fn write_nullable_i32(&mut self, value: Option<i32>) -> (r: Result<(), MsgPackError>)
        requires
            old(self).wf(),
        ensures
            ({
                let e = match value {
                    Some(v) => wire::enc_i64(v as int),
                    None => wire::enc_nil(),
                };
                &&& old(self).off() + e.len() <= old(self).limit() ==> r is Ok && Self::emitted(
                    old(self),
                    final(self),
                    e,
                )
                &&& old(self).off() + e.len() > old(self).limit() ==> Self::refused(
                    old(self),
                    final(self),
                    r,
                    e.len() as int,
                )
            }),
    {
        match value {
            None => self.write_nil(),
            Some(v) => self.write_i32(v),
        }
    }

    /// Writes a nullable signed 64-bit integer: NIL when absent.
    pub fn write_nullable_i64(&mut self, value: Option<i64>) -> (r: Result<(), MsgPackError>)
        requires
            old(self).wf(),
        ensures
            ({
                let e = match value {
                    Some(v) => wire::enc_i64(v as int),
                    None => wire::enc_nil(),
                };
                &&& old(self).off() + e.len() <= old(self).limit() ==> r is Ok && Self::emitted(
                    old(self),
                    final(self),
                    e,
                )
                &&& old(self).off() + e.len() > old(self).limit() ==> Self::refused(
                    old(self),
                    final(self),
                    r,
                    e.len() as int,
                )
            }),
    {
        match value {
            None => self.write_nil(),
            Some(v) => self.write_i64(v),
        }
    }

    /// Writes a nullable unsigned 8-bit integer: NIL when absent.
    pub fn write_nullable_u8(&mut self, value: Option<u8>) -> (r: Result<(), MsgPackError>)
        requires
            old(self).wf(),
        ensures
            ({
                let e = match value {
                    Some(v) => wire::enc_u64(v as nat),
                    None => wire::enc_nil(),
                };
                &&& old(self).off() + e.len() <= old(self).limit() ==> r is Ok && Self::emitted(
                    old(self),
                    final(self),
                    e,
                )
                &&& old(self).off() + e.len() > old(self).limit() ==> Self::refused(
                    old(self),
                    final(self),
                    r,
                    e.len() as int,
                )
            }),
    {
        match value {
            None => self.write_nil(),
            Some(v) => self.write_u8(v),
        }
    }

    /// Writes a nullable unsigned 16-bit integer: NIL when absent.
    pub fn write_nullable_u16(&mut self, value: Option<u16>) -> (r: Result<(), MsgPackError>)
        requires
            old(self).wf(),
        ensures
            ({
                let e = match value {
                    Some(v) => wire::enc_u64(v as nat),
                    None => wire::enc_nil(),
                };
                &&& old(self).off() + e.len() <= old(self).limit() ==> r is Ok && Self::emitted(
                    old(self),
                    final(self),
                    e,
                )
                &&& old(self).off() + e.len() > old(self).limit() ==> Self::refused(
                    old(self),
                    final(self),
                    r,
                    e.len() as int,
                )
            }),
    {
        match value {
            None => self.write_nil(),
            Some(v) => self.write_u16(v),
        }
    }

    /// Writes a nullable unsigned 32-bit integer: NIL when absent.
    pub fn write_nullable_u32(&mut self, value: Option<u32>) -> (r: Result<(), MsgPackError>)
        requires
            old(self).wf(),
        ensures
            ({
                let e = match value {
                    Some(v) => wire::enc_u64(v as nat),
                    None => wire::enc_nil(),
                };
                &&& old(self).off() + e.len() <= old(self).limit() ==> r is Ok && Self::emitted(
                    old(self),
                    final(self),
                    e,
                )
                &&& old(self).off() + e.len() > old(self).limit() ==> Self::refused(
                    old(self),
                    final(self),
                    r,
                    e.len() as int,
                )
            }),
    {
        match value {
            None => self.write_nil(),
            Some(v) => self.write_u32(v),
        }
    }

    /// Writes a nullable unsigned 64-bit integer: NIL when absent.
    pub fn write_nullable_u64(&mut self, value: Option<u64>) -> (r: Result<(), MsgPackError>)
        requires
            old(self).wf(),
        ensures
            ({
                let e = match value {
                    Some(v) => wire::enc_u64(v as nat),
                    None => wire::enc_nil(),
                };
                &&& old(self).off() + e.len() <= old(self).limit() ==> r is Ok && Self::emitted(
                    old(self),
                    final(self),
                    e,
                )
                &&& old(self).off() + e.len() > old(self).limit() ==> Self::refused(
                    old(self),
                    final(self),
                    r,
                    e.len() as int,
                )
            }),
    {
        match value {
            None => self.write_nil(),
            Some(v) => self.write_u64(v),
        }
    }

    /// Writes a nullable string: NIL when absent.
    pub fn write_nullable_string(&mut self, value: Option<&str>) -> (r: Result<(), MsgPackError>)
        requires
            old(self).wf(),
            value matches Some(s) ==> s.spec_bytes().len() <= u32::MAX && s.spec_bytes().len() + 5
                <= usize::MAX,
        ensures
            ({
                let e = match value {
                    Some(s) => wire::enc_string(s.spec_bytes()),
                    None => wire::enc_nil(),
                };
                &&& old(self).off() + e.len() <= old(self).limit() ==> r is Ok && Self::emitted(
                    old(self),
                    final(self),
                    e,
                )
                &&& old(self).off() + e.len() > old(self).limit() ==> Self::refused(
                    old(self),
                    final(self),
                    r,
                    e.len() as int,
                )
            }),
    {
        match value {
            None => self.write_nil(),
            Some(s) => self.write_string(s),
        }
    }

    /// Writes a nullable byte blob: NIL when absent.
    pub fn write_nullable_bytes(&mut self, value: Option<Vec<u8>>) -> (r: Result<
        (),
        MsgPackError,
    >)
        requires
            old(self).wf(),
            value matches Some(b) ==> b@.len() <= u32::MAX && b@.len() + 5 <= usize::MAX,
        ensures
            ({
                let e = match value {
                    Some(b) => wire::enc_bytes(b@),
                    None => wire::enc_nil(),
                };
                &&& old(self).off() + e.len() <= old(self).limit() ==> r is Ok && Self::emitted(
                    old(self),
                    final(self),
                    e,
                )
                &&& old(self).off() + e.len() > old(self).limit() ==> Self::refused(
                    old(self),
                    final(self),
                    r,
                    e.len() as int,
                )
            }),
    {
        match value {
            None => self.write_nil(),
            Some(b) => self.write_bytes(b.as_slice()),
        }
    }

    /// Writes a nullable arbitrary-precision integer: NIL when absent.
    pub fn write_nullable_bigint(&mut self, value: Option<num_bigint::BigInt>) -> (r: Result<
        (),
        MsgPackError,
    >)
        requires
            old(self).wf(),
            value matches Some(v) ==> vstd::utf8::encode_utf8(bigint::bigint_digits(v)).len()
                <= u32::MAX && vstd::utf8::encode_utf8(bigint::bigint_digits(v)).len() + 5
                <= usize::MAX,
        ensures
            value matches Some(v) ==> bigint::is_decimal_seq(bigint::bigint_digits(v))
                && bigint::canonical_digits(bigint::bigint_digits(v)) == bigint::bigint_digits(v),
            ({
                let e = match value {
                    Some(v) => wire::enc_string(vstd::utf8::encode_utf8(bigint::bigint_digits(v))),
                    None => wire::enc_nil(),
                };
                &&& old(self).off() + e.len() <= old(self).limit() ==> r is Ok && Self::emitted(
                    old(self),
                    final(self),
                    e,
                )
                &&& old(self).off() + e.len() > old(self).limit() ==> Self::refused(
                    old(self),
                    final(self),
                    r,
                    e.len() as int,
                )
            }),
    {
        match value {
            None => self.write_nil(),
            Some(v) => self.write_bigint(v),
        }
    }
}

} // verus!
