//! The arbitrary-precision integers underlying the number model.
//!
//! The integers themselves come from the `num-bigint` crate; this module
//! declares that type to the verifier, names its mathematical value, and
//! wraps the handful of operations the number model performs on it.

use vstd::prelude::*;

verus! {

#[verifier::external_type_specification]
#[verifier::external_body]
pub struct ExBigInt(num_bigint::BigInt);

/// The magnitude digits a big integer holds, least significant first,
/// in base 2^64.
pub uninterp spec fn big_digits(b: num_bigint::BigInt) -> Seq<u64>;

/// The sign a big integer carries: -1, 0 or 1.
pub uninterp spec fn big_signum(b: num_bigint::BigInt) -> int;

/// The value of a digit sequence, least significant digit first.
pub open spec fn mag_of(s: Seq<u64>) -> int
    decreases s.len(),
{
    if s.len() == 0 {
        0
    } else {
        s[0] + mag_of(s.skip(1)) * 0x10000000000000000
    }
}

/// The mathematical value of a big integer.
pub open spec fn bval(b: num_bigint::BigInt) -> int {
    big_signum(b) * mag_of(big_digits(b))
}

/// Relies on `num_bigint::BigInt::from::<u64>`: a nonzero value becomes a
/// plus-signed integer with the single digit `x`; zero has no digits.
#[verifier::external_body]
pub(crate) fn big_from_u64(x: u64) -> (r: num_bigint::BigInt)
    ensures
        big_signum(r) == if x == 0 {
            0int
        } else {
            1int
        },
        big_digits(r) == if x == 0 {
            Seq::<u64>::empty()
        } else {
            seq![x]
        },
        bval(r) == x as int,
{
    num_bigint::BigInt::from(x)
}

/// Relies on `num_bigint::BigInt::from::<u128>`: the exact value.
#[verifier::external_body]
pub(crate) fn big_from_u128(x: u128) -> (r: num_bigint::BigInt)
    ensures
        bval(r) == x as int,
{
    num_bigint::BigInt::from(x)
}

/// Relies on `Clone for num_bigint::BigInt`: the copy has the same value.
#[verifier::external_body]
pub(crate) fn big_clone(a: &num_bigint::BigInt) -> (r: num_bigint::BigInt)
    ensures
        bval(r) == bval(*a),
{
    a.clone()
}

/// Relies on `Neg for &num_bigint::BigInt`: arithmetic negation.
#[verifier::external_body]
pub(crate) fn big_neg(a: &num_bigint::BigInt) -> (r: num_bigint::BigInt)
    ensures
        bval(r) == -bval(*a),
{
    -a
}

/// Relies on `Add for &num_bigint::BigInt`: exact integer addition.
#[verifier::external_body]
pub(crate) fn big_add(a: &num_bigint::BigInt, b: &num_bigint::BigInt) -> (r: num_bigint::BigInt)
    ensures
        bval(r) == bval(*a) + bval(*b),
{
    a + b
}

/// Relies on `Mul for &num_bigint::BigInt`: exact integer multiplication.
#[verifier::external_body]
pub(crate) fn big_mul(a: &num_bigint::BigInt, b: &num_bigint::BigInt) -> (r: num_bigint::BigInt)
    ensures
        bval(r) == bval(*a) * bval(*b),
{
    a * b
}

/// Relies on `Ord for num_bigint::BigInt`: big integers order by value.
#[verifier::external_body]
pub(crate) fn big_lt(a: &num_bigint::BigInt, b: &num_bigint::BigInt) -> (r: bool)
    ensures
        r == (bval(*a) < bval(*b)),
{
    a < b
}

/// Relies on `PartialEq for num_bigint::BigInt`: equality is by value.
#[verifier::external_body]
pub(crate) fn big_eq(a: &num_bigint::BigInt, b: &num_bigint::BigInt) -> (r: bool)
    ensures
        r == (bval(*a) == bval(*b)),
{
    a == b
}

/// Relies on `Div for &num_bigint::BigInt`: quotient truncated toward
/// zero, which on nonnegative operands is the flooring quotient.
#[verifier::external_body]
pub(crate) fn big_div(a: &num_bigint::BigInt, b: &num_bigint::BigInt) -> (r: num_bigint::BigInt)
    requires
        bval(*a) >= 0,
        bval(*b) > 0,
    ensures
        bval(r) == bval(*a) / bval(*b),
{
    a / b
}

/// Relies on `Rem for &num_bigint::BigInt`: remainder with the sign of
/// the dividend, which on nonnegative operands is the flooring remainder.
#[verifier::external_body]
pub(crate) fn big_rem(a: &num_bigint::BigInt, b: &num_bigint::BigInt) -> (r: num_bigint::BigInt)
    requires
        bval(*a) >= 0,
        bval(*b) > 0,
    ensures
        bval(r) == bval(*a) % bval(*b),
{
    a % b
}

/// Relies on `num_traits::ToPrimitive::to_usize` for `BigInt`: the exact
/// value when it fits in a `usize`, nothing otherwise.
#[verifier::external_body]
pub(crate) fn big_to_usize(a: &num_bigint::BigInt) -> (r: Option<usize>)
    ensures
        match r {
            Some(u) => u as int == bval(*a),
            None => bval(*a) < 0 || bval(*a) > usize::MAX as int,
        },
{
    num_traits::ToPrimitive::to_usize(a)
}

} // verus!
