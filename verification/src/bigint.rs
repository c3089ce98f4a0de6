use vstd::prelude::*;
use vstd::arithmetic::power2::pow2;
use vstd::math::abs;

verus! {

#[verifier::external_type_specification]
#[verifier::external_body]
pub struct ExBigInt(num::BigInt);

/// The integer that a `num::BigInt` holds: the signed reading of its digits.
pub uninterp spec fn big_val(x: num::BigInt) -> int;

/// Two's-complement bitwise and of two unbounded integers.
pub open spec fn bit_and_int(a: int, b: int) -> int
    decreases abs(a) + abs(b),
{
    if a == 0 || b == 0 {
        0
    } else if a == -1 {
        b
    } else if b == -1 {
        a
    } else {
        2 * bit_and_int(a / 2, b / 2) + (a % 2) * (b % 2)
    }
}

/// Two's-complement bitwise or of two unbounded integers.
pub open spec fn bit_or_int(a: int, b: int) -> int
    decreases abs(a) + abs(b),
{
    if a == 0 {
        b
    } else if b == 0 {
        a
    } else if a == -1 || b == -1 {
        -1
    } else {
        2 * bit_or_int(a / 2, b / 2) + (if a % 2 == 1 || b % 2 == 1 {
            1int
        } else {
            0int
        })
    }
}

/// Two's-complement bitwise xor of two unbounded integers.
pub open spec fn bit_xor_int(a: int, b: int) -> int
    decreases abs(a) + abs(b),
{
    if a == 0 {
        b
    } else if b == 0 {
        a
    } else if a == -1 {
        -1 - b
    } else if b == -1 {
        -1 - a
    } else {
        2 * bit_xor_int(a / 2, b / 2) + (a % 2 + b % 2) % 2
    }
}

/// The decimal digits of a non-negative integer, most significant first,
/// without leading zeroes.
pub open spec fn dec_digits(n: nat) -> Seq<u8>
    decreases n,
{
    if n < 10 {
        seq![(n + ('0' as u8)) as u8]
    } else {
        dec_digits(n / 10) + seq![(n % 10 + ('0' as u8)) as u8]
    }
}

/// The decimal text of an integer: an optional minus sign, then the digits.
pub open spec fn dec_bytes(n: int) -> Seq<u8> {
    if n < 0 {
        seq![('-' as u8)] + dec_digits((-n) as nat)
    } else {
        dec_digits(n as nat)
    }
}

/// Relies on `num::BigInt: From<u64>`: the value is the given one.
#[verifier::external_body]
pub fn big_from_u64(x: u64) -> (r: num::BigInt)
    ensures
        big_val(r) == x as int,
{
    num::BigInt::from(x)
}

/// Relies on num::BigInt negation.
#[verifier::external_body]
pub fn big_neg(a: &num::BigInt) -> (r: num::BigInt)
    ensures
        big_val(r) == -big_val(*a),
{
    -a
}

/// Relies on num::BigInt addition.
#[verifier::external_body]
pub fn big_add(a: &num::BigInt, b: &num::BigInt) -> (r: num::BigInt)
    ensures
        big_val(r) == big_val(*a) + big_val(*b),
{
    a + b
}

/// Relies on num::BigInt subtraction.
#[verifier::external_body]
pub fn big_sub(a: &num::BigInt, b: &num::BigInt) -> (r: num::BigInt)
    ensures
        big_val(r) == big_val(*a) - big_val(*b),
{
    a - b
}

/// Relies on num::BigInt multiplication.
#[verifier::external_body]
pub fn big_mul(a: &num::BigInt, b: &num::BigInt) -> (r: num::BigInt)
    ensures
        big_val(r) == big_val(*a) * big_val(*b),
{
    a * b
}

/// Relies on num::BigInt comparison (`Ord::cmp`): the sign of the difference.
#[verifier::external_body]
pub fn big_cmp(a: &num::BigInt, b: &num::BigInt) -> (r: i8)
    ensures
        r == -1 || r == 0 || r == 1,
        (r == -1) <==> big_val(*a) < big_val(*b),
        (r == 0) <==> big_val(*a) == big_val(*b),
        (r == 1) <==> big_val(*a) > big_val(*b),
{
    match a.cmp(b) {
        core::cmp::Ordering::Less => -1,
        core::cmp::Ordering::Equal => 0,
        core::cmp::Ordering::Greater => 1,
    }
}

/// Relies on num::BigInt bitwise and, which treats negative values as
/// two's complement.
#[verifier::external_body]
pub fn big_and(a: &num::BigInt, b: &num::BigInt) -> (r: num::BigInt)
    ensures
        big_val(r) == bit_and_int(big_val(*a), big_val(*b)),
{
    a & b
}

/// Relies on num::BigInt bitwise or, which treats negative values as
/// two's complement.
#[verifier::external_body]
pub fn big_or(a: &num::BigInt, b: &num::BigInt) -> (r: num::BigInt)
    ensures
        big_val(r) == bit_or_int(big_val(*a), big_val(*b)),
{
    a | b
}

/// Relies on num::BigInt bitwise xor, which treats negative values as
/// two's complement.
#[verifier::external_body]
pub fn big_xor(a: &num::BigInt, b: &num::BigInt) -> (r: num::BigInt)
    ensures
        big_val(r) == bit_xor_int(big_val(*a), big_val(*b)),
{
    a ^ b
}

/// Relies on num::BigInt left shift: multiplication by a power of two.
#[verifier::external_body]
pub fn big_shl(a: &num::BigInt, k: usize) -> (r: num::BigInt)
    ensures
        big_val(r) == big_val(*a) * pow2(k as nat),
{
    a << k
}

/// Relies on num::BigInt right shift, which rounds toward negative
/// infinity: division by a power of two, rounded down.
#[verifier::external_body]
pub fn big_shr(a: &num::BigInt, k: usize) -> (r: num::BigInt)
    ensures
        big_val(r) == big_val(*a) / pow2(k as nat) as int,
{
    a >> k
}

/// Relies on num::BigInt's decimal formatting: an optional minus sign
/// followed by the decimal digits without leading zeroes.
#[verifier::external_body]
pub fn big_to_dec_bytes(a: &num::BigInt) -> (r: Vec<u8>)
    ensures
        r@ == dec_bytes(big_val(*a)),
{
    a.to_string().into_bytes()
}

/// Relies on `u32: TryFrom<&num::BigInt>`: succeeds exactly on values that
/// fit in 32 unsigned bits.
#[verifier::external_body]
pub fn big_to_u32(a: &num::BigInt) -> (r: Option<u32>)
    ensures
        match r {
            Some(x) => x as int == big_val(*a),
            None => !(0 <= big_val(*a) < 0x1_0000_0000),
        },
{
    u32::try_from(a).ok()
}

/// Relies on `u16: TryFrom<&num::BigInt>`: succeeds exactly on values that
/// fit in 16 unsigned bits.
#[verifier::external_body]
pub fn big_to_u16(a: &num::BigInt) -> (r: Option<u16>)
    ensures
        match r {
            Some(x) => x as int == big_val(*a),
            None => !(0 <= big_val(*a) < 0x1_0000),
        },
{
    u16::try_from(a).ok()
}

/// Relies on `usize: TryFrom<&num::BigInt>`: succeeds exactly on values in
/// the platform index range.
#[verifier::external_body]
pub fn big_to_usize(a: &num::BigInt) -> (r: Option<usize>)
    ensures
        match r {
            Some(x) => x as int == big_val(*a),
            None => !(0 <= big_val(*a) <= usize::MAX as int),
        },
{
    usize::try_from(a).ok()
}

} // verus!
