//! The wire grammar, stated once.
//!
//! Everything the codec reads or writes is defined here as specification
//! functions over byte sequences: big-endian fixed-width numbers, the
//! MessagePack encodings of each value family, the byte counts the sizer
//! accounts, and the decode functions the readers are proved against.  The
//! proof functions at the end state the laws the codec obeys: the sizer's
//! count equals the encoder's output length, and decoding an encoding gives
//! the value back.

use vstd::prelude::*;

use crate::error::MsgPackError;
use crate::tag;

verus! {

/// `256^n`, the number of values a big-endian field of `n` bytes can hold.
pub open spec fn pow256(n: nat) -> nat
    decreases n,
{
    if n == 0 {
        1
    } else {
        256 * pow256((n - 1) as nat)
    }
}

/// The `n`-byte big-endian encoding of `v % 256^n`.
pub open spec fn be_bytes(v: nat, n: nat) -> Seq<u8>
    decreases n,
{
    if n == 0 {
        Seq::empty()
    } else {
        be_bytes(v / 256, (n - 1) as nat).push((v % 256) as u8)
    }
}

/// The value of a big-endian byte sequence.
pub open spec fn be_val(s: Seq<u8>) -> nat
    decreases s.len(),
{
    if s.len() == 0 {
        0
    } else {
        (be_val(s.drop_last()) * 256 + s.last()) as nat
    }
}

/// Reading an `n`-byte two's-complement field as a signed number.
pub open spec fn from_twos(v: nat, n: nat) -> int {
    if v < pow256(n) / 2 {
        v as int
    } else {
        v - pow256(n)
    }
}

/// Writing a signed number into an `n`-byte two's-complement field.
pub open spec fn to_twos(v: int, n: nat) -> nat {
    if v >= 0 {
        v as nat
    } else {
        (v + pow256(n)) as nat
    }
}

pub proof fn lemma_pow256_pos(n: nat)
    ensures
        pow256(n) >= 1,
    decreases n,
{
    if n > 0 {
        lemma_pow256_pos((n - 1) as nat);
    }
}

pub proof fn lemma_be_bytes_len(v: nat, n: nat)
    ensures
        be_bytes(v, n).len() == n,
    decreases n,
{
    if n > 0 {
        lemma_be_bytes_len(v / 256, (n - 1) as nat);
    }
}

/// A big-endian field of `n` bytes holds a value below `256^n`.
pub proof fn lemma_be_val_bound(s: Seq<u8>)
    ensures
        be_val(s) < pow256(s.len()),
    decreases s.len(),
{
    if s.len() > 0 {
        lemma_be_val_bound(s.drop_last());
        assert(s.drop_last().len() == s.len() - 1);
    }
}

/// Decoding the encoding of `v < 256^n` gives `v` back.
pub proof fn lemma_be_val_of_be_bytes(v: nat, n: nat)
    requires
        v < pow256(n),
    ensures
        be_val(be_bytes(v, n)) == v,
    decreases n,
{
    if n > 0 {
        lemma_be_bytes_len(v / 256, (n - 1) as nat);
        assert(be_bytes(v, n).drop_last() =~= be_bytes(v / 256, (n - 1) as nat));
        lemma_be_val_of_be_bytes(v / 256, (n - 1) as nat);
    }
}

/// Appending one byte multiplies the value by 256 and adds the byte.
pub proof fn lemma_be_val_push(s: Seq<u8>, b: u8)
    ensures
        be_val(s.push(b)) == be_val(s) * 256 + b,
{
    assert(s.push(b).drop_last() =~= s);
    assert(s.push(b).last() == b);
}

/// A one-byte field holds exactly its byte.
pub proof fn lemma_be_val_singleton(s: Seq<u8>)
    requires
        s.len() == 1,
    ensures
        be_val(s) == s[0],
{
    assert(s.drop_last() =~= Seq::<u8>::empty());
    assert(be_val(s.drop_last()) == 0);
    assert(be_val(s) == be_val(s.drop_last()) * 256 + s.last());
}

/// Indexing a window of `s` with its own subrange is a subrange of `s`.
pub proof fn lemma_subrange_of_subrange(s: Seq<u8>, off: int, lim: int, a: int, b: int)
    requires
        0 <= off <= lim <= s.len(),
        0 <= a <= b <= lim - off,
    ensures
        s.subrange(off, lim).subrange(a, b) == s.subrange(off + a, off + b),
{
    assert(s.subrange(off, lim).subrange(a, b) =~= s.subrange(off + a, off + b));
}

/// Narrowing a window from the left is `skip` on the window.
pub proof fn lemma_rem_skip(s: Seq<u8>, off: int, lim: int, c: int)
    requires
        0 <= off,
        0 <= c,
        off + c <= lim <= s.len(),
    ensures
        s.subrange(off + c, lim) == s.subrange(off, lim).skip(c),
{
    assert(s.subrange(off + c, lim) =~= s.subrange(off, lim).skip(c));
}

pub proof fn lemma_pow256_mono(m: nat, n: nat)
    requires
        m <= n,
    ensures
        pow256(m) <= pow256(n),
    decreases n,
{
    if m < n {
        lemma_pow256_mono(m, (n - 1) as nat);
        lemma_pow256_pos((n - 1) as nat);
    }
}

/// The concrete powers a fixed-width field can take, up to eight bytes.
pub proof fn lemma_pow256_values()
    ensures
        pow256(0) == 1,
        pow256(1) == 0x100,
        pow256(2) == 0x10000,
        pow256(3) == 0x100_0000,
        pow256(4) == 0x1_0000_0000,
        pow256(5) == 0x100_0000_0000,
        pow256(6) == 0x1_0000_0000_0000,
        pow256(7) == 0x100_0000_0000_0000,
        pow256(8) == 0x1_0000_0000_0000_0000,
{
    assert(pow256(0) == 1);
    assert(pow256(1) == 0x100);
    assert(pow256(2) == 0x10000);
    assert(pow256(3) == 0x100_0000);
    assert(pow256(4) == 0x1_0000_0000);
    assert(pow256(5) == 0x100_0000_0000);
    assert(pow256(6) == 0x1_0000_0000_0000);
    assert(pow256(7) == 0x100_0000_0000_0000);
    assert(pow256(8) == 0x1_0000_0000_0000_0000);
}

/// A one-byte big-endian field is just its byte.
pub proof fn lemma_be_bytes_one(t: u8)
    ensures
        be_bytes(t as nat, 1) == seq![t],
{
    assert(be_bytes((t as nat) / 256, 0) =~= Seq::<u8>::empty());
    assert(be_bytes(t as nat, 1) =~= seq![t]);
}

/// Each byte of the big-endian encoding, by position.
pub proof fn lemma_be_bytes_index(v: nat, n: nat, i: int)
    requires
        0 <= i < n,
    ensures
        be_bytes(v, n)[i] == ((v / pow256((n - 1 - i) as nat)) % 256) as u8,
    decreases n,
{
    lemma_be_bytes_len(v / 256, (n - 1) as nat);
    if i == n - 1 {
        assert(pow256(0) == 1);
        vstd::arithmetic::div_mod::lemma_div_basics(v as int);
    } else {
        lemma_be_bytes_index(v / 256, (n - 1) as nat, i);
        let m = (n - 2 - i) as nat;
        lemma_pow256_pos(m);
        vstd::arithmetic::div_mod::lemma_div_denominator(v as int, 256, pow256(m) as int);
        assert(pow256((n - 1 - i) as nat) == 256 * pow256(m));
    }
}

/// Round trip of the two's-complement maps, for values an `n`-byte signed
/// field can hold.
pub proof fn lemma_twos_roundtrip(v: int, n: nat)
    requires
        -(pow256(n) / 2) <= v < pow256(n) / 2,
    ensures
        to_twos(v, n) < pow256(n),
        from_twos(to_twos(v, n), n) == v,
{
    lemma_pow256_pos(n);
}

// ---------------------------------------------------------------------------
// Encodings: the exact byte sequence each value family puts on the wire.
// ---------------------------------------------------------------------------

/// The one-byte encoding of the explicit absence of a value.
pub open spec fn enc_nil() -> Seq<u8> {
    seq![tag::NIL]
}

pub open spec fn enc_bool(b: bool) -> Seq<u8> {
    if b {
        seq![tag::TRUE]
    } else {
        seq![tag::FALSE]
    }
}

/// An unsigned integer: fixed int when it fits 7 bits, else the narrowest of
/// the UINT8/16/32/64 tags.
pub open spec fn enc_u64(v: nat) -> Seq<u8> {
    if v < 0x80 {
        seq![v as u8]
    } else if v < 0x100 {
        seq![tag::UINT8, v as u8]
    } else if v < 0x10000 {
        seq![tag::UINT16] + be_bytes(v, 2)
    } else if v < 0x1_0000_0000 {
        seq![tag::UINT32] + be_bytes(v, 4)
    } else {
        seq![tag::UINT64] + be_bytes(v, 8)
    }
}

/// A signed integer: one byte for `-32..=127` (the fixed-int windows), else
/// the narrowest of the INT8/16/32/64 tags with a two's-complement payload.
pub open spec fn enc_i64(v: int) -> Seq<u8> {
    if -0x20 <= v < 0x80 {
        seq![to_twos(v, 1) as u8]
    } else if -0x80 <= v < 0x80 {
        seq![tag::INT8, to_twos(v, 1) as u8]
    } else if -0x8000 <= v < 0x8000 {
        seq![tag::INT16] + be_bytes(to_twos(v, 2), 2)
    } else if -0x8000_0000 <= v < 0x8000_0000 {
        seq![tag::INT32] + be_bytes(to_twos(v, 4), 4)
    } else {
        seq![tag::INT64] + be_bytes(to_twos(v, 8), 8)
    }
}

/// A string length prefix: fixed string below 32, else STR8/16/32.
pub open spec fn enc_str_len(n: nat) -> Seq<u8> {
    if n < 32 {
        seq![(0xa0 + n) as u8]
    } else if n < 0x100 {
        seq![tag::STR8, n as u8]
    } else if n < 0x10000 {
        seq![tag::STR16] + be_bytes(n, 2)
    } else {
        seq![tag::STR32] + be_bytes(n, 4)
    }
}

/// A byte-blob length prefix.  Blobs travel on the string tag family, and
/// never use the fixed-string window: STR8/16/32 only.
pub open spec fn enc_bytes_len(n: nat) -> Seq<u8> {
    if n < 0x100 {
        seq![tag::STR8, n as u8]
    } else if n < 0x10000 {
        seq![tag::STR16] + be_bytes(n, 2)
    } else {
        seq![tag::STR32] + be_bytes(n, 4)
    }
}

/// An array length prefix: fixed array below 16, else ARRAY16/32.
pub open spec fn enc_arr_len(n: nat) -> Seq<u8> {
    if n < 16 {
        seq![(0x90 + n) as u8]
    } else if n < 0x10000 {
        seq![tag::ARRAY16] + be_bytes(n, 2)
    } else {
        seq![tag::ARRAY32] + be_bytes(n, 4)
    }
}

/// A map length prefix: fixed map below 16, else MAP16/32.
pub open spec fn enc_map_len(n: nat) -> Seq<u8> {
    if n < 16 {
        seq![(0x80 + n) as u8]
    } else if n < 0x10000 {
        seq![tag::MAP16] + be_bytes(n, 2)
    } else {
        seq![tag::MAP32] + be_bytes(n, 4)
    }
}

/// A whole string value: length prefix, then the UTF-8 payload.
pub open spec fn enc_string(bytes: Seq<u8>) -> Seq<u8> {
    enc_str_len(bytes.len()) + bytes
}

/// A whole byte blob: a single NIL byte when empty, else length prefix and
/// payload.
pub open spec fn enc_bytes(b: Seq<u8>) -> Seq<u8> {
    if b.len() == 0 {
        enc_nil()
    } else {
        enc_bytes_len(b.len()) + b
    }
}

// ---------------------------------------------------------------------------
// Sizes: the byte counts the sizer accumulates, stated as the sizer computes
// them.  The lemmas right below prove each equal to the matching encoding's
// length — the agreement that makes a sizer-measured buffer exactly fill up.
// ---------------------------------------------------------------------------

pub open spec fn size_u64(v: nat) -> nat {
    if v < 0x80 {
        1
    } else if v < 0x100 {
        2
    } else if v < 0x10000 {
        3
    } else if v < 0x1_0000_0000 {
        5
    } else {
        9
    }
}

pub open spec fn size_i64(v: int) -> nat {
    if -0x20 <= v < 0x80 {
        1
    } else if -0x80 <= v < 0x80 {
        2
    } else if -0x8000 <= v < 0x8000 {
        3
    } else if -0x8000_0000 <= v < 0x8000_0000 {
        5
    } else {
        9
    }
}

pub open spec fn size_str_len(n: nat) -> nat {
    if n < 32 {
        1
    } else if n < 0x100 {
        2
    } else if n < 0x10000 {
        3
    } else {
        5
    }
}

pub open spec fn size_bytes_len(n: nat) -> nat {
    if n < 0x100 {
        2
    } else if n < 0x10000 {
        3
    } else {
        5
    }
}

pub open spec fn size_arr_len(n: nat) -> nat {
    if n < 16 {
        1
    } else if n < 0x10000 {
        3
    } else {
        5
    }
}

pub open spec fn size_map_len(n: nat) -> nat {
    if n < 16 {
        1
    } else if n < 0x10000 {
        3
    } else {
        5
    }
}

pub open spec fn size_string(bytes_len: nat) -> nat {
    size_str_len(bytes_len) + bytes_len
}

pub open spec fn size_bytes(b_len: nat) -> nat {
    if b_len == 0 {
        1
    } else {
        size_bytes_len(b_len) + b_len
    }
}

/// The sizer's count for an unsigned integer is the length of its encoding.
pub proof fn lemma_size_u64_is_enc_len(v: nat)
    ensures
        size_u64(v) == enc_u64(v).len(),
{
    if v >= 0x80 {
        if v < 0x100 {
        } else if v < 0x10000 {
            lemma_be_bytes_len(v, 2);
        } else if v < 0x1_0000_0000 {
            lemma_be_bytes_len(v, 4);
        } else {
            lemma_be_bytes_len(v, 8);
        }
    }
}

/// The sizer's count for a signed integer is the length of its encoding.
pub proof fn lemma_size_i64_is_enc_len(v: int)
    ensures
        size_i64(v) == enc_i64(v).len(),
{
    if -0x20 <= v < 0x80 {
    } else if -0x80 <= v < 0x80 {
    } else if -0x8000 <= v < 0x8000 {
        lemma_be_bytes_len(to_twos(v, 2), 2);
    } else if -0x8000_0000 <= v < 0x8000_0000 {
        lemma_be_bytes_len(to_twos(v, 4), 4);
    } else {
        lemma_be_bytes_len(to_twos(v, 8), 8);
    }
}

/// The sizer's count for a string length prefix is the prefix's length.
pub proof fn lemma_size_str_len_is_enc_len(n: nat)
    ensures
        size_str_len(n) == enc_str_len(n).len(),
{
    lemma_be_bytes_len(n, 2);
    lemma_be_bytes_len(n, 4);
}

/// The sizer's count for a byte-blob length prefix is the prefix's length.
pub proof fn lemma_size_bytes_len_is_enc_len(n: nat)
    ensures
        size_bytes_len(n) == enc_bytes_len(n).len(),
{
    lemma_be_bytes_len(n, 2);
    lemma_be_bytes_len(n, 4);
}

/// The sizer's count for an array length prefix is the prefix's length.
pub proof fn lemma_size_arr_len_is_enc_len(n: nat)
    ensures
        size_arr_len(n) == enc_arr_len(n).len(),
{
    lemma_be_bytes_len(n, 2);
    lemma_be_bytes_len(n, 4);
}

/// The sizer's count for a map length prefix is the prefix's length.
pub proof fn lemma_size_map_len_is_enc_len(n: nat)
    ensures
        size_map_len(n) == enc_map_len(n).len(),
{
    lemma_be_bytes_len(n, 2);
    lemma_be_bytes_len(n, 4);
}

/// The sizer's count for a whole string is the length of its encoding.
pub proof fn lemma_size_string_is_enc_len(bytes: Seq<u8>)
    ensures
        size_string(bytes.len()) == enc_string(bytes).len(),
{
    lemma_size_str_len_is_enc_len(bytes.len());
}

/// The sizer's count for a whole byte blob is the length of its encoding.
pub proof fn lemma_size_bytes_is_enc_len(b: Seq<u8>)
    ensures
        size_bytes(b.len()) == enc_bytes(b).len(),
{
    lemma_size_bytes_len_is_enc_len(b.len());
}

// ---------------------------------------------------------------------------
// Decodes: what a reader finds at the head of the remaining input `rem`.
// Each `dec_*` gives the decoded value and the bytes consumed, or `None` on
// any failure; the matching `*_err` gives the exact error for that failure,
// with `base` the cursor offset at which the read began (so the buffer's
// logical length is `base + rem.len()`).
// ---------------------------------------------------------------------------

/// The error a cursor primitive reports when `requested` bytes at `offset`
/// run past logical end `length`.
pub open spec fn oor(requested: int, offset: int, length: int) -> MsgPackError {
    MsgPackError::IndexOutOfRange {
        requested: requested as usize,
        offset: offset as usize,
        length: length as usize,
    }
}

/// Payload width of an unsigned-integer tag, or `None` for any other lead.
pub open spec fn uint_payload_width(lead: u8) -> Option<nat> {
    if lead == tag::UINT8 {
        Some(1 as nat)
    } else if lead == tag::UINT16 {
        Some(2 as nat)
    } else if lead == tag::UINT32 {
        Some(4 as nat)
    } else if lead == tag::UINT64 {
        Some(8 as nat)
    } else {
        None
    }
}

/// Payload width of a signed-integer tag, or `None` for any other lead.
pub open spec fn int_payload_width(lead: u8) -> Option<nat> {
    if lead == tag::INT8 {
        Some(1 as nat)
    } else if lead == tag::INT16 {
        Some(2 as nat)
    } else if lead == tag::INT32 {
        Some(4 as nat)
    } else if lead == tag::INT64 {
        Some(8 as nat)
    } else {
        None
    }
}

/// An unsigned integer at the head of `rem`: fixed int, or a UINT tag with
/// its big-endian payload.
pub open spec fn dec_u64(rem: Seq<u8>) -> Option<(nat, nat)> {
    if rem.len() == 0 {
        None
    } else {
        let lead = rem[0];
        if tag::spec_is_fixed_int(lead) {
            Some((lead as nat, 1 as nat))
        } else {
            match uint_payload_width(lead) {
                Some(w) => if rem.len() >= 1 + w {
                    Some((be_val(rem.subrange(1, 1 + w as int)), (1 + w) as nat))
                } else {
                    None
                },
                None => None,
            }
        }
    }
}

pub open spec fn dec_u64_err(rem: Seq<u8>, base: int) -> MsgPackError {
    if rem.len() == 0 {
        oor(1, base, base + rem.len())
    } else {
        let lead = rem[0];
        if tag::spec_is_negative_fixed_int(lead) {
            MsgPackError::NegativeValueForUnsigned { lead }
        } else {
            match uint_payload_width(lead) {
                Some(w) => oor(w as int, base + 1, base + rem.len()),
                None => MsgPackError::InvalidFormat { lead },
            }
        }
    }
}

/// A signed integer at the head of `rem`: either fixed-int window, or an INT
/// tag with its big-endian two's-complement payload.
pub open spec fn dec_i64(rem: Seq<u8>) -> Option<(int, nat)> {
    if rem.len() == 0 {
        None
    } else {
        let lead = rem[0];
        if tag::spec_is_fixed_int(lead) {
            Some((lead as int, 1))
        } else if tag::spec_is_negative_fixed_int(lead) {
            Some((from_twos(lead as nat, 1), 1))
        } else {
            match int_payload_width(lead) {
                Some(w) => if rem.len() >= 1 + w {
                    Some((from_twos(be_val(rem.subrange(1, 1 + w as int)), w), (1 + w) as nat))
                } else {
                    None
                },
                None => None,
            }
        }
    }
}

pub open spec fn dec_i64_err(rem: Seq<u8>, base: int) -> MsgPackError {
    if rem.len() == 0 {
        oor(1, base, base + rem.len())
    } else {
        let lead = rem[0];
        match int_payload_width(lead) {
            Some(w) => oor(w as int, base + 1, base + rem.len()),
            None => MsgPackError::InvalidFormat { lead },
        }
    }
}

/// A boolean at the head of `rem`: the TRUE or FALSE tag, nothing else.
pub open spec fn dec_bool(rem: Seq<u8>) -> Option<(bool, nat)> {
    if rem.len() == 0 {
        None
    } else if rem[0] == tag::TRUE {
        Some((true, 1 as nat))
    } else if rem[0] == tag::FALSE {
        Some((false, 1 as nat))
    } else {
        None
    }
}

pub open spec fn dec_bool_err(rem: Seq<u8>, base: int) -> MsgPackError {
    if rem.len() == 0 {
        oor(1, base, base + rem.len())
    } else {
        MsgPackError::InvalidFormat { lead: rem[0] }
    }
}

/// Payload width of an explicit string-length tag, or `None`.
pub open spec fn str_len_payload_width(lead: u8) -> Option<nat> {
    if lead == tag::STR8 {
        Some(1 as nat)
    } else if lead == tag::STR16 {
        Some(2 as nat)
    } else if lead == tag::STR32 {
        Some(4 as nat)
    } else {
        None
    }
}

/// A string length at the head of `rem`: fixed string, or STR8/16/32.
pub open spec fn dec_str_len(rem: Seq<u8>) -> Option<(nat, nat)> {
    if rem.len() == 0 {
        None
    } else {
        let lead = rem[0];
        if tag::spec_is_fixed_string(lead) {
            Some(((lead - 0xa0) as nat, 1 as nat))
        } else {
            match str_len_payload_width(lead) {
                Some(w) => if rem.len() >= 1 + w {
                    Some((be_val(rem.subrange(1, 1 + w as int)), (1 + w) as nat))
                } else {
                    None
                },
                None => None,
            }
        }
    }
}

pub open spec fn dec_str_len_err(rem: Seq<u8>, base: int) -> MsgPackError {
    if rem.len() == 0 {
        oor(1, base, base + rem.len())
    } else {
        let lead = rem[0];
        match str_len_payload_width(lead) {
            Some(w) => oor(w as int, base + 1, base + rem.len()),
            None => MsgPackError::InvalidFormat { lead },
        }
    }
}

/// A byte-blob length: a NIL head yields zero, anything else reads as a
/// string length.
pub open spec fn dec_bytes_len(rem: Seq<u8>) -> Option<(nat, nat)> {
    if rem.len() > 0 && rem[0] == tag::NIL {
        Some((0 as nat, 1 as nat))
    } else {
        dec_str_len(rem)
    }
}

pub open spec fn dec_bytes_len_err(rem: Seq<u8>, base: int) -> MsgPackError {
    dec_str_len_err(rem, base)
}

/// A whole string payload: its length, then that many raw bytes.
pub open spec fn dec_str(rem: Seq<u8>) -> Option<(Seq<u8>, nat)> {
    match dec_str_len(rem) {
        Some((l, n)) => if rem.len() >= n + l {
            Some((rem.subrange(n as int, (n + l) as int), (n + l) as nat))
        } else {
            None
        },
        None => None,
    }
}

pub open spec fn dec_str_err(rem: Seq<u8>, base: int) -> MsgPackError {
    match dec_str_len(rem) {
        Some((l, n)) => oor(l as int, base + n, base + rem.len()),
        None => dec_str_len_err(rem, base),
    }
}

/// A whole byte blob: its length (NIL meaning empty), then the raw bytes.
pub open spec fn dec_bytes(rem: Seq<u8>) -> Option<(Seq<u8>, nat)> {
    match dec_bytes_len(rem) {
        Some((l, n)) => if rem.len() >= n + l {
            Some((rem.subrange(n as int, (n + l) as int), (n + l) as nat))
        } else {
            None
        },
        None => None,
    }
}

pub open spec fn dec_bytes_err(rem: Seq<u8>, base: int) -> MsgPackError {
    match dec_bytes_len(rem) {
        Some((l, n)) => oor(l as int, base + n, base + rem.len()),
        None => dec_bytes_len_err(rem, base),
    }
}

/// An array length: fixed array, ARRAY16/32, or NIL meaning empty.
pub open spec fn dec_arr_len(rem: Seq<u8>) -> Option<(nat, nat)> {
    if rem.len() == 0 {
        None
    } else {
        let lead = rem[0];
        if tag::spec_is_fixed_array(lead) {
            Some(((lead - 0x90) as nat, 1 as nat))
        } else if lead == tag::NIL {
            Some((0 as nat, 1 as nat))
        } else if lead == tag::ARRAY16 {
            if rem.len() >= 3 {
                Some((be_val(rem.subrange(1, 3)), 3 as nat))
            } else {
                None
            }
        } else if lead == tag::ARRAY32 {
            if rem.len() >= 5 {
                Some((be_val(rem.subrange(1, 5)), 5 as nat))
            } else {
                None
            }
        } else {
            None
        }
    }
}

pub open spec fn dec_arr_len_err(rem: Seq<u8>, base: int) -> MsgPackError {
    if rem.len() == 0 {
        oor(1, base, base + rem.len())
    } else {
        let lead = rem[0];
        if lead == tag::ARRAY16 {
            oor(2, base + 1, base + rem.len())
        } else if lead == tag::ARRAY32 {
            oor(4, base + 1, base + rem.len())
        } else {
            MsgPackError::InvalidFormat { lead }
        }
    }
}

/// A map length: fixed map or MAP16/32; there is no NIL shortcut for maps.
pub open spec fn dec_map_len(rem: Seq<u8>) -> Option<(nat, nat)> {
    if rem.len() == 0 {
        None
    } else {
        let lead = rem[0];
        if tag::spec_is_fixed_map(lead) {
            Some(((lead - 0x80) as nat, 1 as nat))
        } else if lead == tag::MAP16 {
            if rem.len() >= 3 {
                Some((be_val(rem.subrange(1, 3)), 3 as nat))
            } else {
                None
            }
        } else if lead == tag::MAP32 {
            if rem.len() >= 5 {
                Some((be_val(rem.subrange(1, 5)), 5 as nat))
            } else {
                None
            }
        } else {
            None
        }
    }
}

/// A 32-bit float value, carried as its raw bit pattern: the FLOAT32 tag
/// and four big-endian bytes, always full width.
pub open spec fn enc_f32_bits(bits: nat) -> Seq<u8> {
    seq![tag::FLOAT32] + be_bytes(bits, 4)
}

/// A 64-bit float value, carried as its raw bit pattern: the FLOAT64 tag
/// and eight big-endian bytes.
pub open spec fn enc_f64_bits(bits: nat) -> Seq<u8> {
    seq![tag::FLOAT64] + be_bytes(bits, 8)
}

/// A 32-bit float at the head of `rem`: the FLOAT32 tag exactly, then its
/// four payload bytes, given back as the raw bit pattern.
pub open spec fn dec_f32_bits(rem: Seq<u8>) -> Option<(nat, nat)> {
    if rem.len() == 0 {
        None
    } else if rem[0] == tag::FLOAT32 {
        if rem.len() >= 5 {
            Some((be_val(rem.subrange(1, 5)), 5 as nat))
        } else {
            None
        }
    } else {
        None
    }
}

pub open spec fn dec_f32_bits_err(rem: Seq<u8>, base: int) -> MsgPackError {
    if rem.len() == 0 {
        oor(1, base, base + rem.len())
    } else if rem[0] == tag::FLOAT32 {
        oor(4, base + 1, base + rem.len())
    } else {
        MsgPackError::InvalidFormat { lead: rem[0] }
    }
}

/// A 64-bit float at the head of `rem`, as the raw bit pattern.
pub open spec fn dec_f64_bits(rem: Seq<u8>) -> Option<(nat, nat)> {
    if rem.len() == 0 {
        None
    } else if rem[0] == tag::FLOAT64 {
        if rem.len() >= 9 {
            Some((be_val(rem.subrange(1, 9)), 9 as nat))
        } else {
            None
        }
    } else {
        None
    }
}

pub open spec fn dec_f64_bits_err(rem: Seq<u8>, base: int) -> MsgPackError {
    if rem.len() == 0 {
        oor(1, base, base + rem.len())
    } else if rem[0] == tag::FLOAT64 {
        oor(8, base + 1, base + rem.len())
    } else {
        MsgPackError::InvalidFormat { lead: rem[0] }
    }
}

/// What the generic skip dispatcher finds at the head of `rem`: how many
/// nested values remain to be discarded by the caller (zero for leaf
/// values), and how many bytes the dispatcher itself consumes.
pub open spec fn dec_size(rem: Seq<u8>) -> Option<(nat, nat)> {
    if rem.len() == 0 {
        None
    } else {
        let lead = rem[0];
        if tag::spec_is_negative_fixed_int(lead) || tag::spec_is_fixed_int(lead) {
            Some((0 as nat, 1 as nat))
        } else if tag::spec_is_fixed_string(lead) {
            let l = (lead - 0xa0) as nat;
            if rem.len() >= 1 + l {
                Some((0 as nat, (1 + l) as nat))
            } else {
                None
            }
        } else if tag::spec_is_fixed_array(lead) {
            Some(((lead - 0x90) as nat, 1 as nat))
        } else if tag::spec_is_fixed_map(lead) {
            Some(((2 * (lead - 0x80)) as nat, 1 as nat))
        } else if lead == tag::NIL || lead == tag::TRUE || lead == tag::FALSE {
            Some((0 as nat, 1 as nat))
        } else if lead == tag::BIN8 || lead == tag::STR8 {
            if rem.len() >= 2 {
                let l = rem[1] as nat;
                if rem.len() >= 2 + l {
                    Some((0 as nat, (2 + l) as nat))
                } else {
                    None
                }
            } else {
                None
            }
        } else if lead == tag::BIN16 || lead == tag::STR16 {
            if rem.len() >= 3 {
                let l = be_val(rem.subrange(1, 3));
                if rem.len() >= 3 + l {
                    Some((0 as nat, (3 + l) as nat))
                } else {
                    None
                }
            } else {
                None
            }
        } else if lead == tag::BIN32 || lead == tag::STR32 {
            if rem.len() >= 5 {
                let l = be_val(rem.subrange(1, 5));
                if rem.len() >= 5 + l {
                    Some((0 as nat, (5 + l) as nat))
                } else {
                    None
                }
            } else {
                None
            }
        } else if lead == tag::FLOAT32 {
            if rem.len() >= 5 {
                Some((0 as nat, 5 as nat))
            } else {
                None
            }
        } else if lead == tag::FLOAT64 {
            if rem.len() >= 9 {
                Some((0 as nat, 9 as nat))
            } else {
                None
            }
        } else if lead == tag::UINT8 || lead == tag::INT8 {
            if rem.len() >= 2 {
                Some((0 as nat, 2 as nat))
            } else {
                None
            }
        } else if lead == tag::UINT16 || lead == tag::INT16 {
            if rem.len() >= 3 {
                Some((0 as nat, 3 as nat))
            } else {
                None
            }
        } else if lead == tag::UINT32 || lead == tag::INT32 {
            if rem.len() >= 5 {
                Some((0 as nat, 5 as nat))
            } else {
                None
            }
        } else if lead == tag::UINT64 || lead == tag::INT64 {
            if rem.len() >= 9 {
                Some((0 as nat, 9 as nat))
            } else {
                None
            }
        } else if lead == tag::FIXEXT1 {
            if rem.len() >= 3 {
                Some((0 as nat, 3 as nat))
            } else {
                None
            }
        } else if lead == tag::FIXEXT2 {
            if rem.len() >= 4 {
                Some((0 as nat, 4 as nat))
            } else {
                None
            }
        } else if lead == tag::FIXEXT4 {
            if rem.len() >= 6 {
                Some((0 as nat, 6 as nat))
            } else {
                None
            }
        } else if lead == tag::FIXEXT8 {
            if rem.len() >= 10 {
                Some((0 as nat, 10 as nat))
            } else {
                None
            }
        } else if lead == tag::FIXEXT16 {
            if rem.len() >= 18 {
                Some((0 as nat, 18 as nat))
            } else {
                None
            }
        } else if lead == tag::ARRAY16 {
            if rem.len() >= 3 {
                Some((be_val(rem.subrange(1, 3)), 3 as nat))
            } else {
                None
            }
        } else if lead == tag::ARRAY32 {
            if rem.len() >= 5 {
                Some((be_val(rem.subrange(1, 5)), 5 as nat))
            } else {
                None
            }
        } else if lead == tag::MAP16 {
            if rem.len() >= 3 {
                Some(((2 * be_val(rem.subrange(1, 3))) as nat, 3 as nat))
            } else {
                None
            }
        } else if lead == tag::MAP32 {
            if rem.len() >= 5 {
                Some(((2 * be_val(rem.subrange(1, 5))) as nat, 5 as nat))
            } else {
                None
            }
        } else {
            None
        }
    }
}

/// The exact error the skip dispatcher reports where `dec_size` fails.
pub open spec fn dec_size_err(rem: Seq<u8>, base: int) -> MsgPackError {
    if rem.len() == 0 {
        oor(1, base, base + rem.len())
    } else {
        let lead = rem[0];
        let lim = base + rem.len();
        if tag::spec_is_fixed_string(lead) {
            oor((lead - 0xa0) as int, base + 1, lim)
        } else if lead == tag::BIN8 || lead == tag::STR8 {
            if rem.len() >= 2 {
                oor(rem[1] as int, base + 2, lim)
            } else {
                oor(1, base + 1, lim)
            }
        } else if lead == tag::BIN16 || lead == tag::STR16 {
            if rem.len() >= 3 {
                oor(be_val(rem.subrange(1, 3)) as int, base + 3, lim)
            } else {
                oor(2, base + 1, lim)
            }
        } else if lead == tag::BIN32 || lead == tag::STR32 {
            if rem.len() >= 5 {
                oor(be_val(rem.subrange(1, 5)) as int, base + 5, lim)
            } else {
                oor(4, base + 1, lim)
            }
        } else if lead == tag::FLOAT32 {
            oor(4, base + 1, lim)
        } else if lead == tag::FLOAT64 {
            oor(8, base + 1, lim)
        } else if lead == tag::UINT8 || lead == tag::INT8 {
            oor(1, base + 1, lim)
        } else if lead == tag::UINT16 || lead == tag::INT16 {
            oor(2, base + 1, lim)
        } else if lead == tag::UINT32 || lead == tag::INT32 {
            oor(4, base + 1, lim)
        } else if lead == tag::UINT64 || lead == tag::INT64 {
            oor(8, base + 1, lim)
        } else if lead == tag::FIXEXT1 {
            oor(2, base + 1, lim)
        } else if lead == tag::FIXEXT2 {
            oor(3, base + 1, lim)
        } else if lead == tag::FIXEXT4 {
            oor(5, base + 1, lim)
        } else if lead == tag::FIXEXT8 {
            oor(9, base + 1, lim)
        } else if lead == tag::FIXEXT16 {
            oor(17, base + 1, lim)
        } else if lead == tag::ARRAY16 || lead == tag::MAP16 {
            oor(2, base + 1, lim)
        } else if lead == tag::ARRAY32 || lead == tag::MAP32 {
            oor(4, base + 1, lim)
        } else {
            MsgPackError::InvalidFormat { lead }
        }
    }
}

/// The skip loop the decoder drives: after one dispatcher step asked for
/// `k` more values, discard `k` head values without recursing into them.
/// Gives the total bytes consumed, or `None` where a step fails.
pub open spec fn skip_n(rem: Seq<u8>, k: nat) -> Option<nat>
    decreases k,
{
    if k == 0 {
        Some(0 as nat)
    } else {
        match dec_size(rem) {
            Some((j, c)) => match skip_n(rem.skip(c as int), (k - 1) as nat) {
                Some(t) => Some((c + t) as nat),
                None => None,
            },
            None => None,
        }
    }
}

/// A whole skip: one dispatcher step, then the discard loop it demands.
pub open spec fn dec_skip(rem: Seq<u8>) -> Option<nat> {
    match dec_size(rem) {
        Some((k, c)) => match skip_n(rem.skip(c as int), k) {
            Some(t) => Some((c + t) as nat),
            None => None,
        },
        None => None,
    }
}

/// The error of the first failing step in the discard loop; meaningful only
/// where `skip_n` gives `None`.
pub open spec fn skip_n_err(rem: Seq<u8>, k: nat, base: int) -> MsgPackError
    decreases k,
{
    if k == 0 {
        dec_size_err(rem, base)
    } else {
        match dec_size(rem) {
            Some((j, c)) => skip_n_err(rem.skip(c as int), (k - 1) as nat, base + c),
            None => dec_size_err(rem, base),
        }
    }
}

/// The error of the first failing step of a whole skip; meaningful only
/// where `dec_skip` gives `None`.
pub open spec fn dec_skip_err(rem: Seq<u8>, base: int) -> MsgPackError {
    match dec_size(rem) {
        Some((k, c)) => skip_n_err(rem.skip(c as int), k, base + c),
        None => dec_size_err(rem, base),
    }
}

pub open spec fn dec_map_len_err(rem: Seq<u8>, base: int) -> MsgPackError {
    if rem.len() == 0 {
        oor(1, base, base + rem.len())
    } else {
        let lead = rem[0];
        if lead == tag::MAP16 {
            oor(2, base + 1, base + rem.len())
        } else if lead == tag::MAP32 {
            oor(4, base + 1, base + rem.len())
        } else {
            MsgPackError::InvalidFormat { lead }
        }
    }
}

// ---------------------------------------------------------------------------
// Round-trip laws: decoding an encoding gives the encoded value back, with
// exactly the encoding's width consumed, whatever bytes follow it.  One law
// per scalar family the codec reads and writes.
// ---------------------------------------------------------------------------

/// Decoding an encoded unsigned integer yields it back.
pub proof fn lemma_u64_roundtrip(v: u64, rest: Seq<u8>)
    ensures
        dec_u64(enc_u64(v as nat) + rest) == Some((v as nat, enc_u64(v as nat).len())),
{
    lemma_pow256_values();
    let e = enc_u64(v as nat);
    let s = e + rest;
    if v < 0x80 {
        lemma_be_bytes_one(v as u8);
        assert(s[0] == v as u8);
    } else if v < 0x100 {
        assert(s[0] == tag::UINT8);
        lemma_be_bytes_len(v as nat, 1);
        assert(s.subrange(1, 2) =~= be_bytes(v as nat, 1));
        lemma_be_val_of_be_bytes(v as nat, 1);
    } else if v < 0x10000 {
        assert(s[0] == tag::UINT16);
        lemma_be_bytes_len(v as nat, 2);
        assert(s.subrange(1, 3) =~= be_bytes(v as nat, 2));
        lemma_be_val_of_be_bytes(v as nat, 2);
    } else if v < 0x1_0000_0000 {
        assert(s[0] == tag::UINT32);
        lemma_be_bytes_len(v as nat, 4);
        assert(s.subrange(1, 5) =~= be_bytes(v as nat, 4));
        lemma_be_val_of_be_bytes(v as nat, 4);
    } else {
        assert(s[0] == tag::UINT64);
        lemma_be_bytes_len(v as nat, 8);
        assert(s.subrange(1, 9) =~= be_bytes(v as nat, 8));
        lemma_be_val_of_be_bytes(v as nat, 8);
    }
}

/// Decoding an encoded signed integer yields it back.
pub proof fn lemma_i64_roundtrip(v: i64, rest: Seq<u8>)
    ensures
        dec_i64(enc_i64(v as int) + rest) == Some((v as int, enc_i64(v as int).len())),
{
    lemma_pow256_values();
    let e = enc_i64(v as int);
    let s = e + rest;
    if -0x20 <= v < 0x80 {
        let b = to_twos(v as int, 1) as u8;
        lemma_be_bytes_one(b);
        assert(s[0] == b);
        lemma_twos_roundtrip(v as int, 1);
    } else if -0x80 <= v < 0x80 {
        assert(s[0] == tag::INT8);
        let t = to_twos(v as int, 1);
        lemma_twos_roundtrip(v as int, 1);
        lemma_be_bytes_one(t as u8);
        assert(s.subrange(1, 2) =~= be_bytes(t, 1));
        lemma_be_val_of_be_bytes(t, 1);
    } else if -0x8000 <= v < 0x8000 {
        assert(s[0] == tag::INT16);
        let t = to_twos(v as int, 2);
        lemma_twos_roundtrip(v as int, 2);
        lemma_be_bytes_len(t, 2);
        assert(s.subrange(1, 3) =~= be_bytes(t, 2));
        lemma_be_val_of_be_bytes(t, 2);
    } else if -0x8000_0000 <= v < 0x8000_0000 {
        assert(s[0] == tag::INT32);
        let t = to_twos(v as int, 4);
        lemma_twos_roundtrip(v as int, 4);
        lemma_be_bytes_len(t, 4);
        assert(s.subrange(1, 5) =~= be_bytes(t, 4));
        lemma_be_val_of_be_bytes(t, 4);
    } else {
        assert(s[0] == tag::INT64);
        let t = to_twos(v as int, 8);
        lemma_twos_roundtrip(v as int, 8);
        lemma_be_bytes_len(t, 8);
        assert(s.subrange(1, 9) =~= be_bytes(t, 8));
        lemma_be_val_of_be_bytes(t, 8);
    }
}

/// Decoding an encoded boolean yields it back.
pub proof fn lemma_bool_roundtrip(v: bool, rest: Seq<u8>)
    ensures
        dec_bool(enc_bool(v) + rest) == Some((v, 1 as nat)),
{
    let s = enc_bool(v) + rest;
    assert(s[0] == (if v {
        tag::TRUE
    } else {
        tag::FALSE
    }));
}

/// The narrow unsigned readers narrow without loss: an encoded `u8` decodes
/// back within `u8`'s range.
pub proof fn lemma_u8_roundtrip(v: u8, rest: Seq<u8>)
    ensures
        dec_u64(enc_u64(v as nat) + rest) == Some((v as nat, enc_u64(v as nat).len())),
        v as nat <= u8::MAX,
{
    lemma_u64_roundtrip(v as u64, rest);
}

/// An encoded `u16` decodes back within `u16`'s range.
pub proof fn lemma_u16_roundtrip(v: u16, rest: Seq<u8>)
    ensures
        dec_u64(enc_u64(v as nat) + rest) == Some((v as nat, enc_u64(v as nat).len())),
        v as nat <= u16::MAX,
{
    lemma_u64_roundtrip(v as u64, rest);
}

/// An encoded `u32` decodes back within `u32`'s range.
pub proof fn lemma_u32_roundtrip(v: u32, rest: Seq<u8>)
    ensures
        dec_u64(enc_u64(v as nat) + rest) == Some((v as nat, enc_u64(v as nat).len())),
        v as nat <= u32::MAX,
{
    lemma_u64_roundtrip(v as u64, rest);
}

/// An encoded `i8` decodes back within `i8`'s range.
pub proof fn lemma_i8_roundtrip(v: i8, rest: Seq<u8>)
    ensures
        dec_i64(enc_i64(v as int) + rest) == Some((v as int, enc_i64(v as int).len())),
        i8::MIN <= v as int <= i8::MAX,
{
    lemma_i64_roundtrip(v as i64, rest);
}

/// An encoded `i16` decodes back within `i16`'s range.
pub proof fn lemma_i16_roundtrip(v: i16, rest: Seq<u8>)
    ensures
        dec_i64(enc_i64(v as int) + rest) == Some((v as int, enc_i64(v as int).len())),
        i16::MIN <= v as int <= i16::MAX,
{
    lemma_i64_roundtrip(v as i64, rest);
}

/// An encoded `i32` decodes back within `i32`'s range.
pub proof fn lemma_i32_roundtrip(v: i32, rest: Seq<u8>)
    ensures
        dec_i64(enc_i64(v as int) + rest) == Some((v as int, enc_i64(v as int).len())),
        i32::MIN <= v as int <= i32::MAX,
{
    lemma_i64_roundtrip(v as i64, rest);
}

/// Decoding an encoded string length yields it back.
pub proof fn lemma_str_len_roundtrip(n: u32, rest: Seq<u8>)
    ensures
        dec_str_len(enc_str_len(n as nat) + rest) == Some((n as nat, enc_str_len(n as nat).len())),
{
    lemma_pow256_values();
    let s = enc_str_len(n as nat) + rest;
    if n < 32 {
        lemma_be_bytes_one((0xa0 + n) as u8);
        assert(s[0] == (0xa0 + n) as u8);
    } else if n < 0x100 {
        assert(s[0] == tag::STR8);
        lemma_be_bytes_one(n as u8);
        assert(s.subrange(1, 2) =~= be_bytes(n as nat, 1));
        lemma_be_val_of_be_bytes(n as nat, 1);
    } else if n < 0x10000 {
        assert(s[0] == tag::STR16);
        lemma_be_bytes_len(n as nat, 2);
        assert(s.subrange(1, 3) =~= be_bytes(n as nat, 2));
        lemma_be_val_of_be_bytes(n as nat, 2);
    } else {
        assert(s[0] == tag::STR32);
        lemma_be_bytes_len(n as nat, 4);
        assert(s.subrange(1, 5) =~= be_bytes(n as nat, 4));
        lemma_be_val_of_be_bytes(n as nat, 4);
    }
}

/// Decoding an encoded byte-blob length yields it back.
pub proof fn lemma_bytes_len_roundtrip(n: u32, rest: Seq<u8>)
    ensures
        dec_bytes_len(enc_bytes_len(n as nat) + rest) == Some(
            (n as nat, enc_bytes_len(n as nat).len()),
        ),
{
    lemma_pow256_values();
    let s = enc_bytes_len(n as nat) + rest;
    if n < 0x100 {
        assert(s[0] == tag::STR8);
        lemma_be_bytes_one(n as u8);
        assert(s.subrange(1, 2) =~= be_bytes(n as nat, 1));
        lemma_be_val_of_be_bytes(n as nat, 1);
    } else if n < 0x10000 {
        assert(s[0] == tag::STR16);
        lemma_be_bytes_len(n as nat, 2);
        assert(s.subrange(1, 3) =~= be_bytes(n as nat, 2));
        lemma_be_val_of_be_bytes(n as nat, 2);
    } else {
        assert(s[0] == tag::STR32);
        lemma_be_bytes_len(n as nat, 4);
        assert(s.subrange(1, 5) =~= be_bytes(n as nat, 4));
        lemma_be_val_of_be_bytes(n as nat, 4);
    }
}

/// Decoding an encoded array length yields it back.
pub proof fn lemma_arr_len_roundtrip(n: u32, rest: Seq<u8>)
    ensures
        dec_arr_len(enc_arr_len(n as nat) + rest) == Some((n as nat, enc_arr_len(n as nat).len())),
{
    lemma_pow256_values();
    let s = enc_arr_len(n as nat) + rest;
    if n < 16 {
        lemma_be_bytes_one((0x90 + n) as u8);
        assert(s[0] == (0x90 + n) as u8);
    } else if n < 0x10000 {
        assert(s[0] == tag::ARRAY16);
        lemma_be_bytes_len(n as nat, 2);
        assert(s.subrange(1, 3) =~= be_bytes(n as nat, 2));
        lemma_be_val_of_be_bytes(n as nat, 2);
    } else {
        assert(s[0] == tag::ARRAY32);
        lemma_be_bytes_len(n as nat, 4);
        assert(s.subrange(1, 5) =~= be_bytes(n as nat, 4));
        lemma_be_val_of_be_bytes(n as nat, 4);
    }
}

/// Decoding an encoded map length yields it back.
pub proof fn lemma_map_len_roundtrip(n: u32, rest: Seq<u8>)
    ensures
        dec_map_len(enc_map_len(n as nat) + rest) == Some((n as nat, enc_map_len(n as nat).len())),
{
    lemma_pow256_values();
    let s = enc_map_len(n as nat) + rest;
    if n < 16 {
        lemma_be_bytes_one((0x80 + n) as u8);
        assert(s[0] == (0x80 + n) as u8);
    } else if n < 0x10000 {
        assert(s[0] == tag::MAP16);
        lemma_be_bytes_len(n as nat, 2);
        assert(s.subrange(1, 3) =~= be_bytes(n as nat, 2));
        lemma_be_val_of_be_bytes(n as nat, 2);
    } else {
        assert(s[0] == tag::MAP32);
        lemma_be_bytes_len(n as nat, 4);
        assert(s.subrange(1, 5) =~= be_bytes(n as nat, 4));
        lemma_be_val_of_be_bytes(n as nat, 4);
    }
}

/// Decoding an encoded string yields its payload back.
pub proof fn lemma_str_payload_roundtrip(bytes: Seq<u8>, rest: Seq<u8>)
    requires
        bytes.len() <= u32::MAX,
    ensures
        dec_str(enc_string(bytes) + rest) == Some((bytes, enc_string(bytes).len())),
{
    let p = enc_str_len(bytes.len());
    let s = enc_string(bytes) + rest;
    assert(s =~= p + (bytes + rest));
    lemma_str_len_roundtrip(bytes.len() as u32, bytes + rest);
    lemma_size_str_len_is_enc_len(bytes.len());
    assert(s.subrange(p.len() as int, (p.len() + bytes.len()) as int) =~= bytes);
}

/// Decoding an encoded string and validating its UTF-8 yields the original
/// character sequence: the full round trip for string values.
pub proof fn lemma_string_roundtrip(chars: Seq<char>, rest: Seq<u8>)
    requires
        vstd::utf8::encode_utf8(chars).len() <= u32::MAX,
    ensures
        dec_str(enc_string(vstd::utf8::encode_utf8(chars)) + rest) == Some(
            (
                vstd::utf8::encode_utf8(chars),
                enc_string(vstd::utf8::encode_utf8(chars)).len(),
            ),
        ),
        vstd::utf8::valid_utf8(vstd::utf8::encode_utf8(chars)),
        vstd::utf8::decode_utf8(vstd::utf8::encode_utf8(chars)) == chars,
{
    lemma_str_payload_roundtrip(vstd::utf8::encode_utf8(chars), rest);
    vstd::utf8::encode_utf8_valid_utf8(chars);
    vstd::utf8::encode_utf8_decode_utf8(chars);
}

/// Decoding an encoded 32-bit float bit pattern yields it back.
pub proof fn lemma_f32_bits_roundtrip(bits: u32, rest: Seq<u8>)
    ensures
        dec_f32_bits(enc_f32_bits(bits as nat) + rest) == Some((bits as nat, 5 as nat)),
{
    lemma_pow256_values();
    let s = enc_f32_bits(bits as nat) + rest;
    assert(s[0] == tag::FLOAT32);
    lemma_be_bytes_len(bits as nat, 4);
    assert(s.subrange(1, 5) =~= be_bytes(bits as nat, 4));
    lemma_be_val_of_be_bytes(bits as nat, 4);
}

/// Decoding an encoded 64-bit float bit pattern yields it back.
pub proof fn lemma_f64_bits_roundtrip(bits: u64, rest: Seq<u8>)
    ensures
        dec_f64_bits(enc_f64_bits(bits as nat) + rest) == Some((bits as nat, 9 as nat)),
{
    lemma_pow256_values();
    let s = enc_f64_bits(bits as nat) + rest;
    assert(s[0] == tag::FLOAT64);
    lemma_be_bytes_len(bits as nat, 8);
    assert(s.subrange(1, 9) =~= be_bytes(bits as nat, 8));
    lemma_be_val_of_be_bytes(bits as nat, 8);
}

/// Decoding an encoded byte blob yields it back, the empty blob included.
pub proof fn lemma_bytes_roundtrip(b: Seq<u8>, rest: Seq<u8>)
    requires
        b.len() <= u32::MAX,
    ensures
        dec_bytes(enc_bytes(b) + rest) == Some((b, enc_bytes(b).len())),
{
    let s = enc_bytes(b) + rest;
    if b.len() == 0 {
        assert(s[0] == tag::NIL);
        assert(s.subrange(1, 1) =~= b);
    } else {
        let p = enc_bytes_len(b.len());
        assert(s =~= p + (b + rest));
        lemma_bytes_len_roundtrip(b.len() as u32, b + rest);
        lemma_size_bytes_len_is_enc_len(b.len());
        assert(p[0] == tag::STR8 || p[0] == tag::STR16 || p[0] == tag::STR32);
        assert(s[0] != tag::NIL);
        assert(s.subrange(p.len() as int, (p.len() + b.len()) as int) =~= b);
    }
}

} // verus!
