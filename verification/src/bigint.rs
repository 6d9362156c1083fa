//! Arbitrary-precision integers.
//!
//! The interpreter computes over `num::BigInt`.  Verus cannot look inside such
//! a value, so this module gives it a mathematical reading, [`big_value`], and
//! a thin layer of calls whose contracts say what each operation of the `num`
//! crate does to that reading.  The contracts of these calls are believed, not
//! proved: they are the boundary on which every proof about integers in this
//! crate rests.  The mathematical functions that the contracts speak of
//! (floored division, bitwise operations, decimal notation) are defined here
//! too.

use vstd::prelude::*;
use vstd::arithmetic::power::pow;

verus! {

/// Makes `num::BigInt` known to Verus, as a type whose inside it does not
/// see.
#[verifier::external_type_specification]
#[verifier::external_body]
pub struct ExBigInt(num::BigInt);

/// The mathematical integer that a `BigInt` holds.
pub uninterp spec fn big_value(n: num::BigInt) -> int;

/// Absolute value of a mathematical integer.
pub open spec fn int_abs(a: int) -> int {
    if a < 0 {
        -a
    } else {
        a
    }
}

/// Division rounding towards negative infinity; a zero divisor gives zero.
pub open spec fn floor_div(a: int, b: int) -> int {
    if b == 0 {
        0
    } else if b > 0 {
        a / b
    } else {
        (-a) / (-b)
    }
}

/// Remainder of [`floor_div`]: it has the sign of the divisor; a zero divisor
/// gives zero.
pub open spec fn floor_mod(a: int, b: int) -> int {
    if b == 0 {
        0
    } else {
        a - b * floor_div(a, b)
    }
}

/// Whether `a` is one of the two integers whose binary expansion is constant
/// (all zeros or all ones), where bitwise recursion stops.
pub open spec fn bits_constant(a: int) -> bool {
    a == 0 || a == -1
}

/// Bitwise AND of two integers read in two's complement with infinite sign
/// extension.
pub open spec fn bit_and(a: int, b: int) -> int
    decreases int_abs(a) + int_abs(b),
{
    if bits_constant(a) && bits_constant(b) {
        if a == -1 && b == -1 {
            -1
        } else {
            0
        }
    } else {
        2 * bit_and(a / 2, b / 2) + (if a % 2 == 1 && b % 2 == 1 {
            1int
        } else {
            0int
        })
    }
}

/// Bitwise OR of two integers read in two's complement with infinite sign
/// extension.
pub open spec fn bit_or(a: int, b: int) -> int
    decreases int_abs(a) + int_abs(b),
{
    if bits_constant(a) && bits_constant(b) {
        if a == -1 || b == -1 {
            -1
        } else {
            0
        }
    } else {
        2 * bit_or(a / 2, b / 2) + (if a % 2 == 1 || b % 2 == 1 {
            1int
        } else {
            0int
        })
    }
}

/// Bitwise XOR of two integers read in two's complement with infinite sign
/// extension.
pub open spec fn bit_xor(a: int, b: int) -> int
    decreases int_abs(a) + int_abs(b),
{
    if bits_constant(a) && bits_constant(b) {
        if a != b {
            -1
        } else {
            0
        }
    } else {
        2 * bit_xor(a / 2, b / 2) + (if a % 2 != b % 2 {
            1int
        } else {
            0int
        })
    }
}

/// The decimal digits of a natural number, most significant first, as ASCII.
pub open spec fn decimal_digits(n: nat) -> Seq<u8>
    decreases n,
{
    if n < 10 {
        seq![(48 + n) as u8]
    } else {
        decimal_digits(n / 10).push((48 + n % 10) as u8)
    }
}

/// Signed decimal rendering of an integer: a minus sign for negatives, then
/// the digits of the magnitude without leading zeros.
pub open spec fn decimal(n: int) -> Seq<u8> {
    if n < 0 {
        seq![45u8] + decimal_digits((-n) as nat)
    } else {
        decimal_digits(n as nat)
    }
}

/// Whether every byte of `s` is an ASCII decimal digit.
pub open spec fn all_digits(s: Seq<u8>) -> bool {
    forall|i: int| 0 <= i < s.len() ==> 48 <= #[trigger] s[i] <= 57
}

/// Whether `s` is a decimal literal: an optional minus sign, then one or more
/// digits.
pub open spec fn is_decimal(s: Seq<u8>) -> bool {
    if s.len() > 0 && s[0] == 45 {
        s.len() > 1 && all_digits(s.skip(1))
    } else {
        s.len() > 0 && all_digits(s)
    }
}

/// The number that a run of decimal digits denotes (zero for the empty run).
pub open spec fn digits_value(s: Seq<u8>) -> nat
    decreases s.len(),
{
    if s.len() == 0 {
        0
    } else {
        (digits_value(s.drop_last()) * 10 + (s.last() - 48)) as nat
    }
}

/// The integer that a decimal literal denotes.
pub open spec fn decimal_value(s: Seq<u8>) -> int {
    if s.len() > 0 && s[0] == 45 {
        -(digits_value(s.skip(1)) as int)
    } else {
        digits_value(s) as int
    }
}

/// Whether every byte from index `from` on is a decimal digit.
fn digits_from(s: &Vec<u8>, from: usize) -> (r: bool)
    requires
        from <= s.len(),
    ensures
        r == all_digits(s@.skip(from as int)),
{
    let mut i: usize = from;
    while i < s.len()
        invariant
            from <= i <= s.len(),
            forall|j: int| from <= j < i ==> 48 <= #[trigger] s@[j] <= 57,
        decreases s.len() - i,
    {
        if s[i] < 48 || s[i] > 57 {
            proof {
                assert(s@.skip(from as int)[i - from] == s@[i as int]);
            }
            return false;
        }
        i += 1;
    }
    proof {
        assert forall|j: int| 0 <= j < s@.skip(from as int).len() implies 48
            <= #[trigger] s@.skip(from as int)[j] <= 57 by {
            assert(s@.skip(from as int)[j] == s@[from + j]);
        }
    }
    true
}

/// Whether `s` is a decimal literal.
pub fn is_decimal_literal(s: &Vec<u8>) -> (r: bool)
    ensures
        r == is_decimal(s@),
{
    if s.len() > 0 && s[0] == 45 {
        s.len() > 1 && digits_from(s, 1)
    } else {
        proof {
            assert(s@.skip(0) =~= s@);
        }
        s.len() > 0 && digits_from(s, 0)
    }
}

/// `BigInt::from` on an `i64`: the result holds the same integer.
#[verifier::external_body]
pub(crate) fn big_from_i64(x: i64) -> (r: num::BigInt)
    ensures
        big_value(r) == x,
{
    num::BigInt::from(x)
}

/// `BigInt::from` on a `u64`: the result holds the same integer.
#[verifier::external_body]
pub(crate) fn big_from_u64(x: u64) -> (r: num::BigInt)
    ensures
        big_value(r) == x,
{
    num::BigInt::from(x)
}

/// `BigInt::clone`: the copy holds the same integer.
#[verifier::external_body]
pub(crate) fn big_clone(a: &num::BigInt) -> (r: num::BigInt)
    ensures
        big_value(r) == big_value(*a),
{
    a.clone()
}

/// `&BigInt + &BigInt`: exact integer addition.
#[verifier::external_body]
pub(crate) fn big_add(a: &num::BigInt, b: &num::BigInt) -> (r: num::BigInt)
    ensures
        big_value(r) == big_value(*a) + big_value(*b),
{
    a + b
}

/// `&BigInt - &BigInt`: exact integer subtraction.
#[verifier::external_body]
pub(crate) fn big_sub(a: &num::BigInt, b: &num::BigInt) -> (r: num::BigInt)
    ensures
        big_value(r) == big_value(*a) - big_value(*b),
{
    a - b
}

/// `&BigInt * &BigInt`: exact integer multiplication.
#[verifier::external_body]
pub(crate) fn big_mul(a: &num::BigInt, b: &num::BigInt) -> (r: num::BigInt)
    ensures
        big_value(r) == big_value(*a) * big_value(*b),
{
    a * b
}

/// `Signed::abs` on a `BigInt`: the magnitude.
#[verifier::external_body]
pub(crate) fn big_abs(a: &num::BigInt) -> (r: num::BigInt)
    ensures
        big_value(r) == int_abs(big_value(*a)),
{
    num::Signed::abs(a)
}

/// `!&BigInt`: the two's-complement complement, which is `-a - 1`.
#[verifier::external_body]
pub(crate) fn big_not(a: &num::BigInt) -> (r: num::BigInt)
    ensures
        big_value(r) == -big_value(*a) - 1,
{
    !a
}

/// `Integer::div_floor` on `BigInt`: the quotient rounded towards negative
/// infinity.  The outside function panics on a zero divisor, which the
/// precondition excludes.
#[verifier::external_body]
pub(crate) fn big_div_floor(a: &num::BigInt, b: &num::BigInt) -> (r: num::BigInt)
    requires
        big_value(*b) != 0,
    ensures
        big_value(r) == floor_div(big_value(*a), big_value(*b)),
{
    num::Integer::div_floor(a, b)
}

/// `Integer::mod_floor` on `BigInt`: the remainder that goes with
/// `div_floor`.  The outside function panics on a zero divisor, which the
/// precondition excludes.
#[verifier::external_body]
pub(crate) fn big_mod_floor(a: &num::BigInt, b: &num::BigInt) -> (r: num::BigInt)
    requires
        big_value(*b) != 0,
    ensures
        big_value(r) == floor_mod(big_value(*a), big_value(*b)),
{
    num::Integer::mod_floor(a, b)
}

/// `BigInt < BigInt`: the order of the integers.
#[verifier::external_body]
pub(crate) fn big_lt(a: &num::BigInt, b: &num::BigInt) -> (r: bool)
    ensures
        r == (big_value(*a) < big_value(*b)),
{
    a < b
}

/// `BigInt == BigInt`: equality of the integers.
#[verifier::external_body]
pub(crate) fn big_eq(a: &num::BigInt, b: &num::BigInt) -> (r: bool)
    ensures
        r == (big_value(*a) == big_value(*b)),
{
    a == b
}

/// `Zero::is_zero` on a `BigInt`.
#[verifier::external_body]
pub(crate) fn big_is_zero(a: &num::BigInt) -> (r: bool)
    ensures
        r == (big_value(*a) == 0),
{
    num::Zero::is_zero(a)
}

/// `Signed::is_positive` on a `BigInt`: strictly greater than zero.
#[verifier::external_body]
pub(crate) fn big_is_positive(a: &num::BigInt) -> (r: bool)
    ensures
        r == (big_value(*a) > 0),
{
    num::Signed::is_positive(a)
}

/// `ToPrimitive::to_u8` on a `BigInt`: the value when it fits, else `None`.
#[verifier::external_body]
pub(crate) fn big_to_u8(a: &num::BigInt) -> (r: Option<u8>)
    ensures
        r == (if 0 <= big_value(*a) <= u8::MAX {
            Some(big_value(*a) as u8)
        } else {
            None
        }),
{
    num::ToPrimitive::to_u8(a)
}

/// `ToPrimitive::to_u32` on a `BigInt`: the value when it fits, else `None`.
#[verifier::external_body]
pub(crate) fn big_to_u32(a: &num::BigInt) -> (r: Option<u32>)
    ensures
        r == (if 0 <= big_value(*a) <= u32::MAX {
            Some(big_value(*a) as u32)
        } else {
            None
        }),
{
    num::ToPrimitive::to_u32(a)
}

/// `ToPrimitive::to_usize` on a `BigInt`: the value when it fits, else `None`.
#[verifier::external_body]
pub(crate) fn big_to_usize(a: &num::BigInt) -> (r: Option<usize>)
    ensures
        r == (if 0 <= big_value(*a) <= usize::MAX {
            Some(big_value(*a) as usize)
        } else {
            None
        }),
{
    num::ToPrimitive::to_usize(a)
}

/// `Pow::pow` of a `&BigInt` to a `u32`: exact exponentiation, with the zeroth
/// power equal to one.
#[verifier::external_body]
pub(crate) fn big_pow(a: &num::BigInt, e: u32) -> (r: num::BigInt)
    ensures
        big_value(r) == pow(big_value(*a), e as nat),
{
    num::traits::Pow::pow(a, e)
}

/// `&BigInt & &BigInt`: bitwise AND in two's complement.
#[verifier::external_body]
pub(crate) fn big_and(a: &num::BigInt, b: &num::BigInt) -> (r: num::BigInt)
    ensures
        big_value(r) == bit_and(big_value(*a), big_value(*b)),
{
    a & b
}

/// `&BigInt | &BigInt`: bitwise OR in two's complement.
#[verifier::external_body]
pub(crate) fn big_or(a: &num::BigInt, b: &num::BigInt) -> (r: num::BigInt)
    ensures
        big_value(r) == bit_or(big_value(*a), big_value(*b)),
{
    a | b
}

/// `&BigInt ^ &BigInt`: bitwise XOR in two's complement.
#[verifier::external_body]
pub(crate) fn big_xor(a: &num::BigInt, b: &num::BigInt) -> (r: num::BigInt)
    ensures
        big_value(r) == bit_xor(big_value(*a), big_value(*b)),
{
    a ^ b
}

/// `BigInt::parse_bytes` in radix ten: on a decimal literal it succeeds with
/// the integer that the literal denotes.  Nothing is claimed of other input.
#[verifier::external_body]
pub(crate) fn big_parse(s: &[u8]) -> (r: Option<num::BigInt>)
    ensures
        is_decimal(s@) ==> r.is_some() && big_value(r.unwrap()) == decimal_value(s@),
{
    num::BigInt::parse_bytes(s, 10)
}

/// `BigInt::to_string`, as bytes: the signed decimal rendering.
#[verifier::external_body]
pub(crate) fn big_to_decimal(a: &num::BigInt) -> (r: Vec<u8>)
    ensures
        r@ == decimal(big_value(*a)),
{
    a.to_string().into_bytes()
}

} // verus!
