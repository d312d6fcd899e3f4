//! The trusted surface over the num-bigint crate.
//!
//! Arbitrary-precision integers travel on the wire as their decimal strings.
//! The crate computes both directions of that conversion; the codec states
//! here, and nowhere else, what it relies on of it.

use vstd::prelude::*;

use std::str::FromStr;

verus! {

#[verifier::external_type_specification]
#[verifier::external_body]
pub struct ExBigInt(num_bigint::BigInt);

/// The decimal form of an arbitrary-precision integer, as num-bigint's
/// `Display` writes it.  It depends on the value alone, so the sizer and
/// the encoder, converting the same value twice, account for the same
/// string.
pub uninterp spec fn bigint_digits(v: num_bigint::BigInt) -> Seq<char>;

pub open spec fn is_digit_or_underscore(c: char) -> bool {
    c == '_' || ('0' <= c && c <= '9')
}

/// The digit run num-bigint's base-10 parser accepts once signs are gone:
/// non-empty, not opening with an underscore, and made of decimal digits
/// with embedded underscores.
pub open spec fn digits_part_ok(t: Seq<char>) -> bool {
    &&& t.len() > 0
    &&& t[0] != '_'
    &&& forall|i: int| 0 <= i < t.len() ==> is_digit_or_underscore(t[i])
}

/// One optional leading minus sign, kept in place when a plus sign follows
/// it directly (the parser then rejects the string).
pub open spec fn strip_minus(s: Seq<char>) -> Seq<char> {
    if s.len() > 0 && s[0] == '-' && !(s.len() > 1 && s[1] == '+') {
        s.skip(1)
    } else {
        s
    }
}

/// One optional leading plus sign, kept in place when another plus sign
/// follows it directly.
pub open spec fn strip_plus(s: Seq<char>) -> Seq<char> {
    if s.len() > 0 && s[0] == '+' && !(s.len() > 1 && s[1] == '+') {
        s.skip(1)
    } else {
        s
    }
}

/// The strings `BigInt::from_str` parses: an optional minus, an optional
/// plus, then a well-formed digit run.
pub open spec fn is_decimal_seq(s: Seq<char>) -> bool {
    digits_part_ok(strip_plus(strip_minus(s)))
}

/// The underscores the parser skips over.
pub open spec fn strip_underscores(t: Seq<char>) -> Seq<char> {
    t.filter(|c: char| c != '_')
}

pub open spec fn drop_leading_zeros(d: Seq<char>) -> Seq<char>
    decreases d.len(),
{
    if d.len() > 0 && d[0] == '0' {
        drop_leading_zeros(d.skip(1))
    } else {
        d
    }
}

/// What the parser normalizes a valid decimal string to, which is also the
/// decimal form the value displays as: the plus sign and underscores
/// vanish, leading zeros drop, zero is plain `0` whatever its sign, and a
/// nonzero negative keeps its minus sign.
pub open spec fn canonical_digits(s: Seq<char>) -> Seq<char> {
    let neg = s.len() > 0 && s[0] == '-';
    let magnitude = drop_leading_zeros(strip_underscores(strip_plus(strip_minus(s))));
    if magnitude.len() == 0 {
        seq!['0']
    } else if neg {
        seq!['-'] + magnitude
    } else {
        magnitude
    }
}

/// Relies on num-bigint's `Display` impl for `BigInt` (via `to_string`):
/// the result is the value's decimal form, a function of the value alone;
/// it is a string the parser accepts, and it is already canonical — no
/// plus sign, no underscores, no leading zeros, `0` never signed.
#[verifier::external_body]
pub fn bigint_to_decimal(v: &num_bigint::BigInt) -> (r: String)
    ensures
        r@ == bigint_digits(*v),
        is_decimal_seq(r@),
        canonical_digits(r@) == r@,
{
    v.to_string()
}

/// Relies on `<BigInt as FromStr>::from_str`: parsing succeeds exactly on
/// the strings of `is_decimal_seq` — an optional sign, then decimal digits
/// with embedded underscores — and the parsed value's decimal form is the
/// input's canonical form.
#[verifier::external_body]
pub fn bigint_from_decimal(s: &str) -> (r: Option<num_bigint::BigInt>)
    ensures
        r is Some <==> is_decimal_seq(s@),
        r matches Some(v) ==> bigint_digits(v) == canonical_digits(s@),
{
    match num_bigint::BigInt::from_str(s) {
        Ok(v) => Some(v),
        Err(_) => None,
    }
}

} // verus!
