use num::BigInt;
use num::ToPrimitive;
use vstd::prelude::*;

verus! {

/// `num::BigInt`, an integer of any size. Its inside is not seen here: a
/// value of it is carried, and read through the functions below.
#[verifier::external_type_specification]
#[verifier::external_body]
pub struct ExBigInt(num::BigInt);

/// The integer that a big integer stands for.
pub uninterp spec fn bigint_value(b: BigInt) -> int;

pub open spec fn is_digit(c: char) -> bool {
    '0' <= c && c <= '9'
}

/// The number that a decimal digit stands for.
pub open spec fn digit_value(c: char) -> nat {
    (c as nat - '0' as nat) as nat
}

pub open spec fn all_digits(s: Seq<char>) -> bool {
    forall|i: int| 0 <= i < s.len() ==> is_digit(#[trigger] s[i])
}

/// The number that a sequence of decimal digits writes.
pub open spec fn decimal_value(s: Seq<char>) -> nat
    decreases s.len(),
{
    if s.len() == 0 {
        0
    } else {
        decimal_value(s.drop_last()) * 10 + digit_value(s.last())
    }
}

/// The decimal digit of a number below ten.
pub open spec fn digit_char(d: nat) -> char
    recommends
        d < 10,
{
    (('0' as u8) + (d as u8)) as char
}

/// A natural number in decimal, without leading zeros.
pub open spec fn decimal_text(n: nat) -> Seq<char>
    decreases n,
{
    if n < 10 {
        seq![digit_char(n)]
    } else {
        decimal_text(n / 10).push(digit_char(n % 10))
    }
}

/// An integer in decimal, with a minus sign where it is negative.
pub open spec fn signed_decimal_text(v: int) -> Seq<char> {
    if v < 0 {
        seq!['-'] + decimal_text((-v) as nat)
    } else {
        decimal_text(v as nat)
    }
}

/// Reads a big integer from decimal text.
///
/// Trusted: calls `BigInt::from_str` of `num` (through `str::parse`), which reads
/// radix 10. The contract speaks only of text made of one or more ASCII
/// digits: on it the call succeeds with the number that the digits write.
#[verifier::external_body]
pub(crate) fn bigint_parse(digits: &str) -> (r: Option<BigInt>)
    ensures
        digits@.len() > 0 && all_digits(digits@) ==> r is Some && bigint_value(r.unwrap())
            == decimal_value(digits@),
{
    digits.parse::<BigInt>().ok()
}

/// The big integer as an `i32`, where it fits.
///
/// Trusted: calls `ToPrimitive::to_i32` of `num` on a `BigInt`, which gives the
/// value if an `i32` can hold it and `None` otherwise.
#[verifier::external_body]
pub(crate) fn bigint_to_i32(b: &BigInt) -> (r: Option<i32>)
    ensures
        r == if i32::MIN <= bigint_value(*b) <= i32::MAX {
            Some(bigint_value(*b) as i32)
        } else {
            None
        },
{
    b.to_i32()
}

/// The big integer written in decimal.
///
/// Trusted: calls `to_string` on a `BigInt` of `num`, whose `Display` writes the
/// magnitude in radix 10 with a leading minus sign for a negative number.
#[verifier::external_body]
pub(crate) fn bigint_to_string(b: &BigInt) -> (r: String)
    ensures
        r@ == signed_decimal_text(bigint_value(*b)),
{
    b.to_string()
}

} // verus!
