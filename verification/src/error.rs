//! The errors a decode or encode pass can stop with.
//!
//! Every failure is local and non-recoverable within one pass: the first error
//! aborts the pass and travels up to the caller unchanged.

use vstd::prelude::*;

verus! {

/// Why a decode or encode pass stopped.
#[derive(Clone, Copy, Debug, PartialEq, Eq, Structural)]
pub enum MsgPackError {
    /// A buffer declared a byte length above [`crate::utils::BLOCK_MAX_SIZE`].
    InvalidLength { length: usize },
    /// A cursor operation would have read or written past the logical buffer
    /// end: `offset + requested > length`.
    IndexOutOfRange { requested: usize, offset: usize, length: usize },
    /// The lead byte matches no tag valid for the requested type.
    InvalidFormat { lead: u8 },
    /// A decoded signed integer does not fit the requested narrower width.
    IntegerOverflow { value: i64, bits: u32 },
    /// A decoded unsigned integer does not fit the requested narrower width.
    UnsignedOverflow { value: u64, bits: u32 },
    /// An unsigned read met a negative fixed-int lead byte.
    NegativeValueForUnsigned { lead: u8 },
    /// A string payload is not valid UTF-8.
    InvalidUtf8,
    /// A payload that should hold a decimal integer string does not parse
    /// as one.
    InvalidBigInt,
}

} // verus!
