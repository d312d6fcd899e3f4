//! The bounds-checked cursor over an owned byte buffer.
//!
//! A `DataView` owns its buffer for the duration of one decode or encode
//! pass and tracks a single offset into the logical window
//! `[0, byte_length)`.  Every operation that touches `n` bytes first checks
//! `byte_offset + n <= byte_length` and fails with the exact
//! `IndexOutOfRange` error otherwise; reads return the real big-endian bytes
//! at the offset, writes place them there and never resize the buffer.

use vstd::prelude::*;

use crate::error::MsgPackError;
use crate::utils::BLOCK_MAX_SIZE;
use crate::wire;
use vstd::slice::{slice_index_get, slice_subrange, slice_to_vec};
use vstd::string::StringExecFns;

verus! {

/// The bytes `post` equal `pre` except on `[off, off + data.len())`, which
/// now holds `data`.
pub open spec fn wrote(pre: Seq<u8>, post: Seq<u8>, off: int, data: Seq<u8>) -> bool {
    &&& post.len() == pre.len()
    &&& 0 <= off
    &&& off + data.len() <= pre.len()
    &&& post == pre.subrange(0, off) + data + pre.subrange(off + data.len(), pre.len() as int)
}

/// Two consecutive writes are one write of the concatenation.
pub proof fn lemma_wrote_concat(
    pre: Seq<u8>,
    mid: Seq<u8>,
    post: Seq<u8>,
    off: int,
    d1: Seq<u8>,
    d2: Seq<u8>,
)
    requires
        wrote(pre, mid, off, d1),
        wrote(mid, post, off + d1.len(), d2),
    ensures
        wrote(pre, post, off, d1 + d2),
{
    assert(post =~= pre.subrange(0, off) + (d1 + d2) + pre.subrange(
        off + d1.len() + d2.len(),
        pre.len() as int,
    ));
}

/// A bounds-checked view over an owned byte buffer.
pub struct DataView {
    pub buffer: Vec<u8>,
    pub byte_offset: usize,
    pub byte_length: usize,
}

impl DataView {
    /// The whole backing buffer.
    pub open spec fn bytes(&self) -> Seq<u8> {
        self.buffer@
    }

    /// The current read/write offset.
    pub open spec fn off(&self) -> int {
        self.byte_offset as int
    }

    /// The logical window end: no operation may touch bytes at or past it.
    pub open spec fn limit(&self) -> int {
        self.byte_length as int
    }

    /// The cursor invariant: the offset stays inside the window, the window
    /// inside the buffer, and the buffer inside the block-size bound.
    pub open spec fn wf(&self) -> bool {
        &&& 0 <= self.off() <= self.limit() <= self.bytes().len()
        &&& self.limit() <= BLOCK_MAX_SIZE
    }

    /// The bytes not yet consumed: from the offset to the window end.
    pub open spec fn rem(&self) -> Seq<u8> {
        self.bytes().subrange(self.off(), self.limit())
    }

    /// Wraps a copy of `buf`; fails if the buffer would exceed the maximum
    /// block size.
    pub fn new(buf: &[u8]) -> (r: Result<DataView, MsgPackError>)
        ensures
            buf@.len() > BLOCK_MAX_SIZE ==> r == Err::<DataView, MsgPackError>(
                MsgPackError::InvalidLength { length: buf@.len() as usize },
            ),
            buf@.len() <= BLOCK_MAX_SIZE ==> r is Ok && r->Ok_0.bytes() == buf@ && r->Ok_0.off()
                == 0 && r->Ok_0.limit() == buf@.len() && r->Ok_0.wf(),
    {
        let byte_length = buf.len();
        if byte_length > BLOCK_MAX_SIZE {
            return Err(MsgPackError::InvalidLength { length: byte_length });
        }
        Ok(DataView { buffer: slice_to_vec(buf), byte_offset: 0, byte_length })
    }

    /// The byte at the current offset, without advancing.
    pub fn peek_u8(&self) -> (r: Result<u8, MsgPackError>)
        requires
            self.wf(),
        ensures
            self.off() < self.limit() ==> r == Ok::<u8, MsgPackError>(self.bytes()[self.off()]),
            self.off() >= self.limit() ==> r == Err::<u8, MsgPackError>(
                wire::oor(1, self.off(), self.limit()),
            ),
    {
        if self.byte_offset < self.byte_length {
            Ok(self.buffer[self.byte_offset])
        } else {
            Err(MsgPackError::IndexOutOfRange {
                requested: 1,
                offset: self.byte_offset,
                length: self.byte_length,
            })
        }
    }

    /// Advances the offset by `length` without reading.
    pub fn discard(&mut self, length: usize) -> (r: Result<(), MsgPackError>)
        requires
            old(self).wf(),
        ensures
            final(self).bytes() == old(self).bytes(),
            final(self).limit() == old(self).limit(),
            final(self).wf(),
            old(self).off() + length <= old(self).limit() ==> r == Ok::<(), MsgPackError>(())
                && final(self).off() == old(self).off() + length,
            old(self).off() + length > old(self).limit() ==> r == Err::<(), MsgPackError>(
                wire::oor(length as int, old(self).off(), old(self).limit()),
            ) && final(self).off() == old(self).off(),
    {
        if length > self.byte_length - self.byte_offset {
            return Err(MsgPackError::IndexOutOfRange {
                requested: length,
                offset: self.byte_offset,
                length: self.byte_length,
            });
        }
        self.byte_offset = self.byte_offset + length;
        Ok(())
    }

    /// A copy of the next `length` bytes; advances past them.
    pub fn get_bytes(&mut self, length: usize) -> (r: Result<Vec<u8>, MsgPackError>)
        requires
            old(self).wf(),
        ensures
            final(self).bytes() == old(self).bytes(),
            final(self).limit() == old(self).limit(),
            final(self).wf(),
            old(self).off() + length <= old(self).limit() ==> r is Ok && r->Ok_0@ == old(
                self,
            ).bytes().subrange(old(self).off(), old(self).off() + length) && final(self).off()
                == old(self).off() + length,
            old(self).off() + length > old(self).limit() ==> r == Err::<Vec<u8>, MsgPackError>(
                wire::oor(length as int, old(self).off(), old(self).limit()),
            ) && final(self).off() == old(self).off(),
    {
        if length > self.byte_length - self.byte_offset {
            return Err(MsgPackError::IndexOutOfRange {
                requested: length,
                offset: self.byte_offset,
                length: self.byte_length,
            });
        }
        let s = slice_subrange(self.buffer.as_slice(), self.byte_offset, self.byte_offset + length);
        let v = slice_to_vec(s);
        self.byte_offset = self.byte_offset + length;
        Ok(v)
    }

    /// Reads a `width`-byte big-endian unsigned field and advances past it.
    fn take_be(&mut self, width: usize) -> (r: Result<u64, MsgPackError>)
        requires
            old(self).wf(),
            1 <= width <= 8,
        ensures
            final(self).bytes() == old(self).bytes(),
            final(self).limit() == old(self).limit(),
            final(self).wf(),
            old(self).off() + width <= old(self).limit() ==> r is Ok && r->Ok_0 as nat
                == wire::be_val(
                old(self).bytes().subrange(old(self).off(), old(self).off() + width),
            ) && final(self).off() == old(self).off() + width,
            old(self).off() + width > old(self).limit() ==> r == Err::<u64, MsgPackError>(
                wire::oor(width as int, old(self).off(), old(self).limit()),
            ) && final(self).off() == old(self).off(),
    {
        if width > self.byte_length - self.byte_offset {
            return Err(MsgPackError::IndexOutOfRange {
                requested: width,
                offset: self.byte_offset,
                length: self.byte_length,
            });
        }
        let off = self.byte_offset;
        let mut r: u64 = 0;
        let mut k: usize = 0;
        while k < width
            invariant
                self.wf(),
                width <= 8,
                off == self.off(),
                off + width <= self.limit(),
                k <= width,
                r as nat == wire::be_val(self.bytes().subrange(off as int, off + k)),
                (r as nat) < wire::pow256(k as nat),
            decreases width - k,
        {
            let b = self.buffer[off + k];
            proof {
                let s = self.bytes().subrange(off as int, off + k);
                let s2 = self.bytes().subrange(off as int, off + k + 1);
                assert(s2.drop_last() =~= s);
                assert(s2 =~= s.push(b));
                wire::lemma_be_val_push(s, b);
                wire::lemma_pow256_mono((k + 1) as nat, 8);
                wire::lemma_pow256_values();
                vstd::arithmetic::mul::lemma_mul_inequality(
                    r as int,
                    wire::pow256(k as nat) - 1,
                    256,
                );
            }
            r = r * 256 + (b as u64);
            k = k + 1;
        }
        self.byte_offset = self.byte_offset + width;
        Ok(r)
    }

    pub fn get_u8(&mut self) -> (r: Result<u8, MsgPackError>)
        requires
            old(self).wf(),
        ensures
            final(self).bytes() == old(self).bytes(),
            final(self).limit() == old(self).limit(),
            final(self).wf(),
            old(self).off() + 1 <= old(self).limit() ==> r is Ok && r->Ok_0 == old(
                self,
            ).bytes()[old(self).off()] && final(self).off() == old(self).off() + 1,
            old(self).off() + 1 > old(self).limit() ==> r == Err::<u8, MsgPackError>(
                wire::oor(1, old(self).off(), old(self).limit()),
            ) && final(self).off() == old(self).off(),
    {
        proof {
            wire::lemma_pow256_values();
            if old(self).off() + 1 <= old(self).limit() {
                wire::lemma_be_val_singleton(
                    old(self).bytes().subrange(old(self).off(), old(self).off() + 1),
                );
            }
        }
        match self.take_be(1) {
            Ok(v) => Ok(v as u8),
            Err(e) => Err(e),
        }
    }

    pub fn get_u16(&mut self) -> (r: Result<u16, MsgPackError>)
        requires
            old(self).wf(),
        ensures
            final(self).bytes() == old(self).bytes(),
            final(self).limit() == old(self).limit(),
            final(self).wf(),
            old(self).off() + 2 <= old(self).limit() ==> r is Ok && r->Ok_0 as nat
                == wire::be_val(old(self).bytes().subrange(old(self).off(), old(self).off() + 2))
                && final(self).off() == old(self).off() + 2,
            old(self).off() + 2 > old(self).limit() ==> r == Err::<u16, MsgPackError>(
                wire::oor(2, old(self).off(), old(self).limit()),
            ) && final(self).off() == old(self).off(),
    {
        proof {
            wire::lemma_pow256_values();
            if old(self).off() + 2 <= old(self).limit() {
                wire::lemma_be_val_bound(
                    old(self).bytes().subrange(old(self).off(), old(self).off() + 2),
                );
            }
        }
        match self.take_be(2) {
            Ok(v) => Ok(v as u16),
            Err(e) => Err(e),
        }
    }

    pub fn get_u32(&mut self) -> (r: Result<u32, MsgPackError>)
        requires
            old(self).wf(),
        ensures
            final(self).bytes() == old(self).bytes(),
            final(self).limit() == old(self).limit(),
            final(self).wf(),
            old(self).off() + 4 <= old(self).limit() ==> r is Ok && r->Ok_0 as nat
                == wire::be_val(old(self).bytes().subrange(old(self).off(), old(self).off() + 4))
                && final(self).off() == old(self).off() + 4,
            old(self).off() + 4 > old(self).limit() ==> r == Err::<u32, MsgPackError>(
                wire::oor(4, old(self).off(), old(self).limit()),
            ) && final(self).off() == old(self).off(),
    {
        proof {
            wire::lemma_pow256_values();
            if old(self).off() + 4 <= old(self).limit() {
                wire::lemma_be_val_bound(
                    old(self).bytes().subrange(old(self).off(), old(self).off() + 4),
                );
            }
        }
        match self.take_be(4) {
            Ok(v) => Ok(v as u32),
            Err(e) => Err(e),
        }
    }

    pub fn get_u64(&mut self) -> (r: Result<u64, MsgPackError>)
        requires
            old(self).wf(),
        ensures
            final(self).bytes() == old(self).bytes(),
            final(self).limit() == old(self).limit(),
            final(self).wf(),
            old(self).off() + 8 <= old(self).limit() ==> r is Ok && r->Ok_0 as nat
                == wire::be_val(old(self).bytes().subrange(old(self).off(), old(self).off() + 8))
                && final(self).off() == old(self).off() + 8,
            old(self).off() + 8 > old(self).limit() ==> r == Err::<u64, MsgPackError>(
                wire::oor(8, old(self).off(), old(self).limit()),
            ) && final(self).off() == old(self).off(),
    {
        self.take_be(8)
    }

    pub fn get_i8(&mut self) -> (r: Result<i8, MsgPackError>)
        requires
            old(self).wf(),
        ensures
            final(self).bytes() == old(self).bytes(),
            final(self).limit() == old(self).limit(),
            final(self).wf(),
            old(self).off() + 1 <= old(self).limit() ==> r is Ok && r->Ok_0 as int
                == wire::from_twos(
                wire::be_val(old(self).bytes().subrange(old(self).off(), old(self).off() + 1)),
                1,
            ) && final(self).off() == old(self).off() + 1,
            old(self).off() + 1 > old(self).limit() ==> r == Err::<i8, MsgPackError>(
                wire::oor(1, old(self).off(), old(self).limit()),
            ) && final(self).off() == old(self).off(),
    {
        proof {
            wire::lemma_pow256_values();
        }
        match self.get_u8() {
            Ok(v) => {
                proof {
                    if old(self).off() + 1 <= old(self).limit() {
                        wire::lemma_be_val_singleton(
                            old(self).bytes().subrange(old(self).off(), old(self).off() + 1),
                        );
                    }
                }
                if v < 0x80 {
                    Ok(v as i8)
                } else {
                    Ok((v as i16 - 0x100) as i8)
                }
            },
            Err(e) => Err(e),
        }
    }

    pub fn get_i16(&mut self) -> (r: Result<i16, MsgPackError>)
        requires
            old(self).wf(),
        ensures
            final(self).bytes() == old(self).bytes(),
            final(self).limit() == old(self).limit(),
            final(self).wf(),
            old(self).off() + 2 <= old(self).limit() ==> r is Ok && r->Ok_0 as int
                == wire::from_twos(
                wire::be_val(old(self).bytes().subrange(old(self).off(), old(self).off() + 2)),
                2,
            ) && final(self).off() == old(self).off() + 2,
            old(self).off() + 2 > old(self).limit() ==> r == Err::<i16, MsgPackError>(
                wire::oor(2, old(self).off(), old(self).limit()),
            ) && final(self).off() == old(self).off(),
    {
        proof {
            wire::lemma_pow256_values();
        }
        match self.get_u16() {
            Ok(v) => if v < 0x8000 {
                Ok(v as i16)
            } else {
                Ok((v as i32 - 0x10000) as i16)
            },
            Err(e) => Err(e),
        }
    }

    pub fn get_i32(&mut self) -> (r: Result<i32, MsgPackError>)
        requires
            old(self).wf(),
        ensures
            final(self).bytes() == old(self).bytes(),
            final(self).limit() == old(self).limit(),
            final(self).wf(),
            old(self).off() + 4 <= old(self).limit() ==> r is Ok && r->Ok_0 as int
                == wire::from_twos(
                wire::be_val(old(self).bytes().subrange(old(self).off(), old(self).off() + 4)),
                4,
            ) && final(self).off() == old(self).off() + 4,
            old(self).off() + 4 > old(self).limit() ==> r == Err::<i32, MsgPackError>(
                wire::oor(4, old(self).off(), old(self).limit()),
            ) && final(self).off() == old(self).off(),
    {
        proof {
            wire::lemma_pow256_values();
        }
        match self.get_u32() {
            Ok(v) => if v < 0x8000_0000 {
                Ok(v as i32)
            } else {
                Ok((v as i64 - 0x1_0000_0000) as i32)
            },
            Err(e) => Err(e),
        }
    }

    pub fn get_i64(&mut self) -> (r: Result<i64, MsgPackError>)
        requires
            old(self).wf(),
        ensures
            final(self).bytes() == old(self).bytes(),
            final(self).limit() == old(self).limit(),
            final(self).wf(),
            old(self).off() + 8 <= old(self).limit() ==> r is Ok && r->Ok_0 as int
                == wire::from_twos(
                wire::be_val(old(self).bytes().subrange(old(self).off(), old(self).off() + 8)),
                8,
            ) && final(self).off() == old(self).off() + 8,
            old(self).off() + 8 > old(self).limit() ==> r == Err::<i64, MsgPackError>(
                wire::oor(8, old(self).off(), old(self).limit()),
            ) && final(self).off() == old(self).off(),
    {
        proof {
            wire::lemma_pow256_values();
        }
        match self.get_u64() {
            Ok(v) => if v < 0x8000_0000_0000_0000 {
                Ok(v as i64)
            } else {
                let d = v - 0x8000_0000_0000_0000;
                Ok(i64::MIN + (d as i64))
            },
            Err(e) => Err(e),
        }
    }

    /// Writes the `width`-byte big-endian encoding of `value` at the offset
    /// and advances past it.
    fn put_be(&mut self, value: u64, width: usize) -> (r: Result<(), MsgPackError>)
        requires
            old(self).wf(),
            1 <= width <= 8,
            (value as nat) < wire::pow256(width as nat),
        ensures
            final(self).limit() == old(self).limit(),
            final(self).wf(),
            old(self).off() + width <= old(self).limit() ==> r is Ok && wrote(
                old(self).bytes(),
                final(self).bytes(),
                old(self).off(),
                wire::be_bytes(value as nat, width as nat),
            ) && final(self).off() == old(self).off() + width,
            old(self).off() + width > old(self).limit() ==> r == Err::<(), MsgPackError>(
                wire::oor(width as int, old(self).off(), old(self).limit()),
            ) && final(self).bytes() == old(self).bytes() && final(self).off() == old(self).off(),
    {
        if width > self.byte_length - self.byte_offset {
            return Err(MsgPackError::IndexOutOfRange {
                requested: width,
                offset: self.byte_offset,
                length: self.byte_length,
            });
        }
        let ghost pre = self.bytes();
        let ghost data = wire::be_bytes(value as nat, width as nat);
        proof {
            wire::lemma_be_bytes_len(value as nat, width as nat);
        }
        let off = self.byte_offset;
        let ghost lim = self.limit();
        proof {
            vstd::arithmetic::div_mod::lemma_div_basics(value as int);
        }
        let mut tmp: u64 = value;
        let mut k: usize = width;
        while k > 0
            invariant
                self.wf(),
                self.limit() == lim,
                width <= 8,
                off == self.off(),
                off + width <= self.limit(),
                k <= width,
                self.bytes().len() == pre.len(),
                data == wire::be_bytes(value as nat, width as nat),
                data.len() == width,
                tmp as nat == (value as nat) / wire::pow256((width - k) as nat),
                forall|j: int| k <= j < width ==> self.bytes()[off + j] == data[j],
                forall|j: int|
                    0 <= j < pre.len() && !(off + k <= j < off + width) ==> self.bytes()[j]
                        == pre[j],
            decreases k,
        {
            k = k - 1;
            let b = (tmp % 256) as u8;
            proof {
                let m = (width - 1 - k) as nat;
                wire::lemma_be_bytes_index(value as nat, width as nat, k as int);
                assert(data[k as int] == (((value as nat) / wire::pow256(m)) % 256) as u8);
                assert(tmp as nat == (value as nat) / wire::pow256(m));
                assert(b == data[k as int]);
                wire::lemma_pow256_pos(m);
                vstd::arithmetic::div_mod::lemma_div_denominator(
                    value as int,
                    wire::pow256(m) as int,
                    256,
                );
                assert(wire::pow256((m + 1) as nat) == 256 * wire::pow256(m));
            }
            self.buffer[off + k] = b;
            tmp = tmp / 256;
        }
        self.byte_offset = self.byte_offset + width;
        proof {
            assert(self.bytes() =~= pre.subrange(0, off as int) + data + pre.subrange(
                off + width,
                pre.len() as int,
            ));
        }
        Ok(())
    }

    /// Writes `buf` in place at the offset and advances past it.
    pub fn set_bytes(&mut self, buf: &[u8]) -> (r: Result<(), MsgPackError>)
        requires
            old(self).wf(),
        ensures
            final(self).limit() == old(self).limit(),
            final(self).wf(),
            old(self).off() + buf@.len() <= old(self).limit() ==> r is Ok && wrote(
                old(self).bytes(),
                final(self).bytes(),
                old(self).off(),
                buf@,
            ) && final(self).off() == old(self).off() + buf@.len(),
            old(self).off() + buf@.len() > old(self).limit() ==> r == Err::<(), MsgPackError>(
                wire::oor(buf@.len() as int, old(self).off(), old(self).limit()),
            ) && final(self).bytes() == old(self).bytes() && final(self).off() == old(self).off(),
    {
        let n = buf.len();
        if n > self.byte_length - self.byte_offset {
            return Err(MsgPackError::IndexOutOfRange {
                requested: n,
                offset: self.byte_offset,
                length: self.byte_length,
            });
        }
        let ghost pre = self.bytes();
        let off = self.byte_offset;
        let ghost lim = self.limit();
        let mut i: usize = 0;
        while i < n
            invariant
                self.wf(),
                self.limit() == lim,
                off == self.off(),
                off + n <= self.limit(),
                i <= n,
                n == buf@.len(),
                self.bytes().len() == pre.len(),
                forall|j: int| 0 <= j < i ==> self.bytes()[off + j] == buf@[j],
                forall|j: int|
                    0 <= j < pre.len() && !(off <= j < off + i) ==> self.bytes()[j] == pre[j],
            decreases n - i,
        {
            let b = *slice_index_get(buf, i);
            self.buffer[off + i] = b;
            i = i + 1;
        }
        self.byte_offset = self.byte_offset + n;
        proof {
            assert(self.bytes() =~= pre.subrange(0, off as int) + buf@ + pre.subrange(
                off + n,
                pre.len() as int,
            ));
        }
        Ok(())
    }

    pub fn set_u8(&mut self, value: u8) -> (r: Result<(), MsgPackError>)
        requires
            old(self).wf(),
        ensures
            final(self).limit() == old(self).limit(),
            final(self).wf(),
            old(self).off() + 1 <= old(self).limit() ==> r is Ok && wrote(
                old(self).bytes(),
                final(self).bytes(),
                old(self).off(),
                wire::be_bytes(value as nat, 1),
            ) && final(self).off() == old(self).off() + 1,
            old(self).off() + 1 > old(self).limit() ==> r == Err::<(), MsgPackError>(
                wire::oor(1, old(self).off(), old(self).limit()),
            ) && final(self).bytes() == old(self).bytes() && final(self).off() == old(self).off(),
    {
        proof {
            wire::lemma_pow256_values();
        }
        self.put_be(value as u64, 1)
    }

    pub fn set_u16(&mut self, value: u16) -> (r: Result<(), MsgPackError>)
        requires
            old(self).wf(),
        ensures
            final(self).limit() == old(self).limit(),
            final(self).wf(),
            old(self).off() + 2 <= old(self).limit() ==> r is Ok && wrote(
                old(self).bytes(),
                final(self).bytes(),
                old(self).off(),
                wire::be_bytes(value as nat, 2),
            ) && final(self).off() == old(self).off() + 2,
            old(self).off() + 2 > old(self).limit() ==> r == Err::<(), MsgPackError>(
                wire::oor(2, old(self).off(), old(self).limit()),
            ) && final(self).bytes() == old(self).bytes() && final(self).off() == old(self).off(),
    {
        proof {
            wire::lemma_pow256_values();
        }
        self.put_be(value as u64, 2)
    }

    pub fn set_u32(&mut self, value: u32) -> (r: Result<(), MsgPackError>)
        requires
            old(self).wf(),
        ensures
            final(self).limit() == old(self).limit(),
            final(self).wf(),
            old(self).off() + 4 <= old(self).limit() ==> r is Ok && wrote(
                old(self).bytes(),
                final(self).bytes(),
                old(self).off(),
                wire::be_bytes(value as nat, 4),
            ) && final(self).off() == old(self).off() + 4,
            old(self).off() + 4 > old(self).limit() ==> r == Err::<(), MsgPackError>(
                wire::oor(4, old(self).off(), old(self).limit()),
            ) && final(self).bytes() == old(self).bytes() && final(self).off() == old(self).off(),
    {
        proof {
            wire::lemma_pow256_values();
        }
        self.put_be(value as u64, 4)
    }

    pub fn set_u64(&mut self, value: u64) -> (r: Result<(), MsgPackError>)
        requires
            old(self).wf(),
        ensures
            final(self).limit() == old(self).limit(),
            final(self).wf(),
            old(self).off() + 8 <= old(self).limit() ==> r is Ok && wrote(
                old(self).bytes(),
                final(self).bytes(),
                old(self).off(),
                wire::be_bytes(value as nat, 8),
            ) && final(self).off() == old(self).off() + 8,
            old(self).off() + 8 > old(self).limit() ==> r == Err::<(), MsgPackError>(
                wire::oor(8, old(self).off(), old(self).limit()),
            ) && final(self).bytes() == old(self).bytes() && final(self).off() == old(self).off(),
    {
        proof {
            wire::lemma_pow256_values();
        }
        self.put_be(value, 8)
    }

    pub fn set_i8(&mut self, value: i8) -> (r: Result<(), MsgPackError>)
        requires
            old(self).wf(),
        ensures
            final(self).limit() == old(self).limit(),
            final(self).wf(),
            old(self).off() + 1 <= old(self).limit() ==> r is Ok && wrote(
                old(self).bytes(),
                final(self).bytes(),
                old(self).off(),
                wire::be_bytes(wire::to_twos(value as int, 1), 1),
            ) && final(self).off() == old(self).off() + 1,
            old(self).off() + 1 > old(self).limit() ==> r == Err::<(), MsgPackError>(
                wire::oor(1, old(self).off(), old(self).limit()),
            ) && final(self).bytes() == old(self).bytes() && final(self).off() == old(self).off(),
    {
        proof {
            wire::lemma_pow256_values();
        }
        let u: u8 = if value >= 0 {
            value as u8
        } else {
            ((value as i16) + 0x100) as u8
        };
        self.put_be(u as u64, 1)
    }

    pub fn set_i16(&mut self, value: i16) -> (r: Result<(), MsgPackError>)
        requires
            old(self).wf(),
        ensures
            final(self).limit() == old(self).limit(),
            final(self).wf(),
            old(self).off() + 2 <= old(self).limit() ==> r is Ok && wrote(
                old(self).bytes(),
                final(self).bytes(),
                old(self).off(),
                wire::be_bytes(wire::to_twos(value as int, 2), 2),
            ) && final(self).off() == old(self).off() + 2,
            old(self).off() + 2 > old(self).limit() ==> r == Err::<(), MsgPackError>(
                wire::oor(2, old(self).off(), old(self).limit()),
            ) && final(self).bytes() == old(self).bytes() && final(self).off() == old(self).off(),
    {
        proof {
            wire::lemma_pow256_values();
        }
        let u: u16 = if value >= 0 {
            value as u16
        } else {
            ((value as i32) + 0x10000) as u16
        };
        self.put_be(u as u64, 2)
    }

    pub fn set_i32(&mut self, value: i32) -> (r: Result<(), MsgPackError>)
        requires
            old(self).wf(),
        ensures
            final(self).limit() == old(self).limit(),
            final(self).wf(),
            old(self).off() + 4 <= old(self).limit() ==> r is Ok && wrote(
                old(self).bytes(),
                final(self).bytes(),
                old(self).off(),
                wire::be_bytes(wire::to_twos(value as int, 4), 4),
            ) && final(self).off() == old(self).off() + 4,
            old(self).off() + 4 > old(self).limit() ==> r == Err::<(), MsgPackError>(
                wire::oor(4, old(self).off(), old(self).limit()),
            ) && final(self).bytes() == old(self).bytes() && final(self).off() == old(self).off(),
    {
        proof {
            wire::lemma_pow256_values();
        }
        let u: u32 = if value >= 0 {
            value as u32
        } else {
            ((value as i64) + 0x1_0000_0000) as u32
        };
        self.put_be(u as u64, 4)
    }

    pub fn set_i64(&mut self, value: i64) -> (r: Result<(), MsgPackError>)
        requires
            old(self).wf(),
        ensures
            final(self).limit() == old(self).limit(),
            final(self).wf(),
            old(self).off() + 8 <= old(self).limit() ==> r is Ok && wrote(
                old(self).bytes(),
                final(self).bytes(),
                old(self).off(),
                wire::be_bytes(wire::to_twos(value as int, 8), 8),
            ) && final(self).off() == old(self).off() + 8,
            old(self).off() + 8 > old(self).limit() ==> r == Err::<(), MsgPackError>(
                wire::oor(8, old(self).off(), old(self).limit()),
            ) && final(self).bytes() == old(self).bytes() && final(self).off() == old(self).off(),
    {
        proof {
            wire::lemma_pow256_values();
        }
        let u: u64 = if value >= 0 {
            value as u64
        } else {
            let d = (value - i64::MIN) as u64;
            d + 0x8000_0000_0000_0000
        };
        self.put_be(u, 8)
    }

    /// The placeholder display form the host sees for a cursor.
    pub fn to_string() -> (r: String)
        ensures
            r@ == "[object DataView"@,
    {
        String::from_str("[object DataView")
    }
}

} // verus!
