//! Arbitrary-precision integers, held as `num_bigint::BigInt` behind trusted
//! wrappers. The spec function `big_value` names the mathematical integer a
//! `BigInt` holds; every wrapper's contract is stated over it.

use vstd::prelude::*;

verus! {

use num_bigint::BigInt;
use vstd::arithmetic::power::pow;
use crate::digits::{is_digit, digit_val, dec_value};

#[verifier::external_type_specification]
#[verifier::external_body]
pub struct ExBigInt(BigInt);

/// The mathematical integer that a `BigInt` holds.
pub uninterp spec fn big_value(b: BigInt) -> int;

/// Relies on `From<u32> for BigInt`: conversion is exact.
#[verifier::external_body]
pub(crate) fn big_from_u32(x: u32) -> (r: BigInt)
    ensures
        big_value(r) == x as int,
{
    BigInt::from(x)
}

/// Relies on `Clone for BigInt`: the copy holds the same integer.
#[verifier::external_body]
pub(crate) fn big_clone(n: &BigInt) -> (r: BigInt)
    ensures
        big_value(r) == big_value(*n),
{
    n.clone()
}

/// Relies on `PartialEq for BigInt`: equality of the held integers.
#[verifier::external_body]
pub(crate) fn big_eq(a: &BigInt, b: &BigInt) -> (r: bool)
    ensures
        r == (big_value(*a) == big_value(*b)),
{
    a == b
}

/// Relies on `Ord for BigInt`: comparison follows numeric order.
#[verifier::external_body]
pub(crate) fn big_lt(a: &BigInt, b: &BigInt) -> (r: bool)
    ensures
        r == (big_value(*a) < big_value(*b)),
{
    a < b
}

/// Relies on `Add for BigInt`: exact unbounded addition.
#[verifier::external_body]
pub(crate) fn big_add(a: &BigInt, b: &BigInt) -> (r: BigInt)
    ensures
        big_value(r) == big_value(*a) + big_value(*b),
{
    a + b
}

/// Relies on `Sub for BigInt`: exact unbounded subtraction.
#[verifier::external_body]
pub(crate) fn big_sub(a: &BigInt, b: &BigInt) -> (r: BigInt)
    ensures
        big_value(r) == big_value(*a) - big_value(*b),
{
    a - b
}

/// Relies on `Mul for BigInt`: exact unbounded multiplication.
#[verifier::external_body]
pub(crate) fn big_mul(a: &BigInt, b: &BigInt) -> (r: BigInt)
    ensures
        big_value(r) == big_value(*a) * big_value(*b),
{
    a * b
}

/// Relies on `Div for BigInt`: the quotient of truncating division, which on
/// nonnegative operands agrees with Euclidean division. Panics on a zero
/// divisor, so that is excluded.
#[verifier::external_body]
pub(crate) fn big_div(a: &BigInt, b: &BigInt) -> (r: BigInt)
    requires
        big_value(*b) != 0,
    ensures
        big_value(*a) >= 0 && big_value(*b) > 0 ==> big_value(r) == big_value(*a) / big_value(*b),
{
    a / b
}

/// Relies on `Rem for BigInt`: the remainder of truncating division, which on
/// nonnegative operands agrees with Euclidean remainder. Panics on a zero
/// divisor, so that is excluded.
#[verifier::external_body]
pub(crate) fn big_rem(a: &BigInt, b: &BigInt) -> (r: BigInt)
    requires
        big_value(*b) != 0,
    ensures
        big_value(*a) >= 0 && big_value(*b) > 0 ==> big_value(r) == big_value(*a) % big_value(*b),
{
    a % b
}

/// Relies on `BigInt::pow` with a `u32` exponent: exact exponentiation, with
/// anything to the power 0 equal to 1.
#[verifier::external_body]
pub(crate) fn big_pow(b: &BigInt, e: u32) -> (r: BigInt)
    ensures
        big_value(r) == pow(big_value(*b), e as nat),
{
    b.pow(e)
}

/// The byte sequence is accepted by `BigInt::parse_bytes` in base 10 once any
/// leading sign is removed: nonempty, leading digit, and every further byte a
/// digit or an underscore (underscores are skipped as digit separators).
pub open spec fn decimal_body_valid(t: Seq<u8>) -> bool {
    &&& t.len() > 0
    &&& is_digit(t[0])
    &&& forall|i: int| 0 <= i < t.len() ==> is_digit(t[i]) || t[i] == 95
}

/// The value of such a body: the decimal value of its digits, with
/// underscores skipped.
pub open spec fn decimal_body_value(t: Seq<u8>) -> int
    decreases t.len(),
{
    if t.len() == 0 {
        0
    } else if is_digit(t.last()) {
        decimal_body_value(t.drop_last()) * 10 + digit_val(t.last())
    } else {
        decimal_body_value(t.drop_last())
    }
}

/// On a run of plain digits, the body value is the decimal value: there are
/// no underscores to skip.
pub proof fn lemma_decimal_body_value_digits(t: Seq<u8>)
    requires
        forall|i: int| 0 <= i < t.len() ==> is_digit(t[i]),
    ensures
        decimal_body_value(t) == dec_value(t),
    decreases t.len(),
{
    if t.len() > 0 {
        lemma_decimal_body_value_digits(t.drop_last());
    }
}

/// The byte sequence is accepted by `BigInt::parse_bytes` in base 10: an
/// optional single leading sign (a sign followed by a further `+` is
/// rejected), then a valid body.
pub open spec fn decimal_text_valid(s: Seq<u8>) -> bool {
    if s.len() > 0 && (s[0] == 45 || s[0] == 43) {
        !(s.len() > 1 && s[1] == 43) && decimal_body_valid(s.skip(1))
    } else {
        decimal_body_valid(s)
    }
}

/// The integer such a byte sequence denotes.
pub open spec fn decimal_text_value(s: Seq<u8>) -> int {
    if s.len() > 0 && s[0] == 45 {
        -decimal_body_value(s.skip(1))
    } else if s.len() > 0 && s[0] == 43 {
        decimal_body_value(s.skip(1))
    } else {
        decimal_body_value(s)
    }
}

/// Relies on `BigInt::parse_bytes` with radix 10 (`str::from_utf8` followed
/// by `from_str_radix`): it accepts exactly an optional sign followed by a
/// nonempty digit-leading run of digits and underscores, and returns the
/// integer those digits denote. A byte outside that grammar, non-UTF-8 input
/// included, yields `None`.
#[verifier::external_body]
pub(crate) fn big_parse_bytes(s: &[u8]) -> (r: Option<BigInt>)
    ensures
        match r {
            Some(v) => decimal_text_valid(s@) && big_value(v) == decimal_text_value(s@),
            None => !decimal_text_valid(s@),
        },
{
    BigInt::parse_bytes(s, 10)
}

/// The held integer is strictly positive.
pub fn big_is_positive(n: &BigInt) -> (r: bool)
    ensures
        r == (big_value(*n) > 0),
{
    let zero = big_from_u32(0);
    big_lt(&zero, n)
}

/// The held integer is even. Stated for nonnegative integers, where the
/// truncating remainder by 2 agrees with the Euclidean one.
pub fn big_is_even(n: &BigInt) -> (r: bool)
    requires
        big_value(*n) >= 0,
    ensures
        r == (big_value(*n) % 2 == 0),
{
    let two = big_from_u32(2);
    let zero = big_from_u32(0);
    let rem = big_rem(n, &two);
    big_eq(&rem, &zero)
}

} // verus!
