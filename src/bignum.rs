//! Arbitrary-precision naturals, provided by `num_bigint::BigUint`.
//!
//! The value of a `BigUint` is read through its base-2^32 digits, least
//! significant first, as `BigUint::to_u32_digits` hands them out.
use num_bigint::BigUint;
use vstd::prelude::*;

verus! {

#[verifier::external_type_specification]
#[verifier::external_body]
pub struct ExBigUint(BigUint);

/// The base-2^32 digits of a `BigUint`, least significant first
/// (what `BigUint::to_u32_digits` returns).
pub uninterp spec fn big_digits(b: BigUint) -> Seq<u32>;

/// The natural number denoted by little-endian base-2^32 digits.
pub open spec fn digits_value(s: Seq<u32>) -> nat
    decreases s.len(),
{
    if s.len() == 0 {
        0
    } else {
        s[0] as nat + 0x1_0000_0000nat * digits_value(s.drop_first())
    }
}

/// The natural number held by a `BigUint`.
pub open spec fn big_value(b: BigUint) -> nat {
    digits_value(big_digits(b))
}

/// Relies on `From<usize> for BigUint`: the result denotes `n`.
#[verifier::external_body]
pub(crate) fn big_from_usize(n: usize) -> (r: BigUint)
    ensures
        digits_value(big_digits(r)) == n as nat,
{
    BigUint::from(n)
}

/// Relies on `Clone for BigUint`: the copy denotes the same number.
#[verifier::external_body]
pub(crate) fn big_clone(a: &BigUint) -> (r: BigUint)
    ensures
        digits_value(big_digits(r)) == digits_value(big_digits(*a)),
{
    a.clone()
}

/// Relies on `Add for &BigUint`: exact sum.
#[verifier::external_body]
pub(crate) fn big_add(a: &BigUint, b: &BigUint) -> (r: BigUint)
    ensures
        digits_value(big_digits(r)) == digits_value(big_digits(*a)) + digits_value(big_digits(*b)),
{
    a + b
}

/// Relies on `Sub for &BigUint`: exact difference; it panics when `b > a`,
/// which the precondition excludes.
#[verifier::external_body]
pub(crate) fn big_sub(a: &BigUint, b: &BigUint) -> (r: BigUint)
    requires
        digits_value(big_digits(*a)) >= digits_value(big_digits(*b)),
    ensures
        digits_value(big_digits(r)) == digits_value(big_digits(*a)) - digits_value(big_digits(*b)),
{
    a - b
}

/// Relies on `PartialOrd for BigUint`: numeric comparison.
#[verifier::external_body]
pub(crate) fn big_lt(a: &BigUint, b: &BigUint) -> (r: bool)
    ensures
        r == (digits_value(big_digits(*a)) < digits_value(big_digits(*b))),
{
    a < b
}

/// Relies on `num_traits::ToPrimitive::to_usize` for `BigUint`: `Some` of
/// the value exactly when it fits in a `usize`.
#[verifier::external_body]
pub(crate) fn big_to_usize(a: &BigUint) -> (r: Option<usize>)
    ensures
        digits_value(big_digits(*a)) <= usize::MAX ==> r == Some(digits_value(big_digits(*a)) as usize),
        digits_value(big_digits(*a)) > usize::MAX ==> r.is_none(),
{
    num_traits::ToPrimitive::to_usize(a)
}

/// Relies on `Mul for &BigUint`: exact product.
#[verifier::external_body]
pub(crate) fn big_mul(a: &BigUint, b: &BigUint) -> (r: BigUint)
    ensures
        digits_value(big_digits(r)) == digits_value(big_digits(*a)) * digits_value(big_digits(*b)),
{
    a * b
}

/// Relies on `Div for &BigUint`: the quotient rounded down; it panics on
/// a zero divisor, which the precondition excludes.
#[verifier::external_body]
pub(crate) fn big_div(a: &BigUint, b: &BigUint) -> (r: BigUint)
    requires
        digits_value(big_digits(*b)) > 0,
    ensures
        digits_value(big_digits(r)) == digits_value(big_digits(*a)) / digits_value(big_digits(*b)),
{
    a / b
}

/// The number held by little-endian bytes.
pub open spec fn le_value(s: Seq<u8>) -> nat
    decreases s.len(),
{
    if s.len() == 0 {
        0
    } else {
        s[0] as nat + 256 * le_value(s.drop_first())
    }
}

/// Relies on `BigUint::from_bytes_le`: the number whose little-endian bytes
/// are `bytes`.
#[verifier::external_body]
pub(crate) fn big_from_bytes_le(bytes: &[u8]) -> (r: BigUint)
    ensures
        digits_value(big_digits(r)) == le_value(bytes@),
{
    BigUint::from_bytes_le(bytes)
}

/// Relies on `Rem for &BigUint`: the remainder; it panics on a zero
/// divisor, which the precondition excludes.
#[verifier::external_body]
pub(crate) fn big_rem(a: &BigUint, b: &BigUint) -> (r: BigUint)
    requires
        digits_value(big_digits(*b)) > 0,
    ensures
        digits_value(big_digits(r)) == digits_value(big_digits(*a)) % digits_value(big_digits(*b)),
{
    a % b
}

} // verus!
