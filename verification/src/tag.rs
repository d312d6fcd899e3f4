//! The MessagePack lead-byte grammar: tag constants and the pure classifiers
//! that partition the value range of a single lead byte.

use vstd::prelude::*;

verus! {

pub const NIL: u8 = 0xc0;
pub const RESERVED: u8 = 0xc1;
pub const FALSE: u8 = 0xc2;
pub const TRUE: u8 = 0xc3;
pub const BIN8: u8 = 0xc4;
pub const BIN16: u8 = 0xc5;
pub const BIN32: u8 = 0xc6;
pub const EXT8: u8 = 0xc7;
pub const EXT16: u8 = 0xc8;
pub const EXT32: u8 = 0xc9;
pub const FLOAT32: u8 = 0xca;
pub const FLOAT64: u8 = 0xcb;
pub const UINT8: u8 = 0xcc;
pub const UINT16: u8 = 0xcd;
pub const UINT32: u8 = 0xce;
pub const UINT64: u8 = 0xcf;
pub const INT8: u8 = 0xd0;
pub const INT16: u8 = 0xd1;
pub const INT32: u8 = 0xd2;
pub const INT64: u8 = 0xd3;
pub const FIXEXT1: u8 = 0xd4;
pub const FIXEXT2: u8 = 0xd5;
pub const FIXEXT4: u8 = 0xd6;
pub const FIXEXT8: u8 = 0xd7;
pub const FIXEXT16: u8 = 0xd8;
pub const STR8: u8 = 0xd9;
pub const STR16: u8 = 0xda;
pub const STR32: u8 = 0xdb;
pub const ARRAY16: u8 = 0xdc;
pub const ARRAY32: u8 = 0xdd;
pub const MAP16: u8 = 0xde;
pub const MAP32: u8 = 0xdf;

/// Mask for the length packed into the low bits of a fixed-array or fixed-map
/// lead byte.
pub const FOUR_LEAST_SIG_BITS_IN_BYTE: u8 = 0x0f;

/// Mask for the length packed into the low bits of a fixed-string lead byte.
pub const FIVE_LEAST_SIG_BITS_IN_BYTE: u8 = 0x1f;

/// A positive fixed int packs its value into the whole byte: `0x00..=0x7f`.
pub open spec fn spec_is_fixed_int(lead: u8) -> bool {
    lead < 0x80
}

/// A negative fixed int occupies `0xe0..=0xff` and stands for `-32..=-1`.
pub open spec fn spec_is_negative_fixed_int(lead: u8) -> bool {
    lead >= 0xe0
}

/// A fixed string occupies `0xa0..=0xbf`; the low 5 bits hold the length.
pub open spec fn spec_is_fixed_string(lead: u8) -> bool {
    0xa0 <= lead && lead <= 0xbf
}

/// A fixed array occupies `0x90..=0x9f`; the low 4 bits hold the length.
pub open spec fn spec_is_fixed_array(lead: u8) -> bool {
    0x90 <= lead && lead <= 0x9f
}

/// A fixed map occupies `0x80..=0x8f`; the low 4 bits hold the entry count.
pub open spec fn spec_is_fixed_map(lead: u8) -> bool {
    0x80 <= lead && lead <= 0x8f
}

#[verifier::when_used_as_spec(spec_is_fixed_int)]
pub fn is_fixed_int(lead: u8) -> (r: bool)
    ensures
        r == spec_is_fixed_int(lead),
{
    lead < 0x80
}

#[verifier::when_used_as_spec(spec_is_negative_fixed_int)]
pub fn is_negative_fixed_int(lead: u8) -> (r: bool)
    ensures
        r == spec_is_negative_fixed_int(lead),
{
    lead >= 0xe0
}

#[verifier::when_used_as_spec(spec_is_fixed_string)]
pub fn is_fixed_string(lead: u8) -> (r: bool)
    ensures
        r == spec_is_fixed_string(lead),
{
    0xa0 <= lead && lead <= 0xbf
}

#[verifier::when_used_as_spec(spec_is_fixed_array)]
pub fn is_fixed_array(lead: u8) -> (r: bool)
    ensures
        r == spec_is_fixed_array(lead),
{
    0x90 <= lead && lead <= 0x9f
}

#[verifier::when_used_as_spec(spec_is_fixed_map)]
pub fn is_fixed_map(lead: u8) -> (r: bool)
    ensures
        r == spec_is_fixed_map(lead),
{
    0x80 <= lead && lead <= 0x8f
}

pub fn is_float_32(lead: u8) -> (r: bool)
    ensures
        r == (lead == FLOAT32),
{
    lead == FLOAT32
}

pub fn is_float_64(lead: u8) -> (r: bool)
    ensures
        r == (lead == FLOAT64),
{
    lead == FLOAT64
}

} // verus!
