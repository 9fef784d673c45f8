//! Binary64 numbers by their bit patterns.
//!
//! The library decides on numbers that it never computes with. It takes each of them as the
//! 64 bits of its binary64 representation and orders these as the numbers are ordered.
use vstd::prelude::*;

verus! {

/// The sign bit, which is also the number of magnitudes.
pub const SIGN: u64 = 0x8000_0000_0000_0000;

/// The magnitude of an infinity; a greater one belongs to a NaN.
pub const INFINITY: u64 = 0x7ff0_0000_0000_0000;

/// The bits of one.
pub const ONE: u64 = 0x3ff0_0000_0000_0000;

/// The bits of a NaN.
pub const NAN: u64 = 0x7ff8_0000_0000_0000;

/// The bits without the sign.
pub open spec fn magnitude(bits: u64) -> int {
    if bits < SIGN {
        bits as int
    } else {
        bits - SIGN
    }
}

/// The place of a number in the order of the numbers: both zeros stand at zero.
pub open spec fn rank(bits: u64) -> int {
    if bits < SIGN {
        magnitude(bits)
    } else {
        -magnitude(bits)
    }
}

/// Whether the bits are those of a NaN.
pub open spec fn nan(bits: u64) -> bool {
    magnitude(bits) > INFINITY
}

/// Whether the number is neither infinite nor NaN.
pub open spec fn finite(bits: u64) -> bool {
    magnitude(bits) < INFINITY
}

/// Whether the first number is less than the second; never where one of them is NaN.
pub open spec fn less(a: u64, b: u64) -> bool {
    !nan(a) && !nan(b) && rank(a) < rank(b)
}

/// Whether the number is greater than zero.
pub open spec fn positive(bits: u64) -> bool {
    less(0, bits)
}

/// The bits without the sign.
fn strip_sign(bits: u64) -> (m: u64)
    ensures
        m == magnitude(bits),
        m < SIGN,
{
    if bits < SIGN {
        bits
    } else {
        bits - SIGN
    }
}

/// Whether the number is neither infinite nor NaN.
pub fn is_finite(bits: u64) -> (r: bool)
    ensures
        r == finite(bits),
{
    strip_sign(bits) < INFINITY
}

/// Whether the first number is less than the second.
pub fn is_less(a: u64, b: u64) -> (r: bool)
    ensures
        r == less(a, b),
{
    let x = strip_sign(a);
    let y = strip_sign(b);
    if x > INFINITY || y > INFINITY {
        false
    } else if a < SIGN {
        b < SIGN && x < y
    } else if b < SIGN {
        x != 0 || y != 0
    } else {
        y < x
    }
}

/// Whether the number is greater than zero.
pub fn is_positive(bits: u64) -> (r: bool)
    ensures
        r == positive(bits),
{
    is_less(0, bits)
}

/// The order of the numbers is irreflexive and transitive, and of two numbers that are not
/// NaN and of which neither is less, the ranks are the same.
pub proof fn less_orders_numbers(a: u64, b: u64, c: u64)
    ensures
        !less(a, a),
        less(a, b) && less(b, c) ==> less(a, c),
        !nan(a) && !nan(b) && !less(a, b) && !less(b, a) ==> rank(a) == rank(b),
{
}

/// Numbers by their bits: positive ones ascend with them, negative ones descend, each negative
/// number but zero is less than each positive one, and NaN stand beyond the infinities.
pub proof fn numbers_by_bits(a: u64, b: u64)
    ensures
        nan(a) <==> 0x7ff0_0000_0000_0000 < a < 0x8000_0000_0000_0000 || a
            > 0xfff0_0000_0000_0000,
        finite(a) <==> a < 0x7ff0_0000_0000_0000 || 0x8000_0000_0000_0000 <= a
            < 0xfff0_0000_0000_0000,
        positive(a) <==> 0 < a <= 0x7ff0_0000_0000_0000,
        nan(a) || nan(b) ==> !less(a, b),
        !nan(a) && !nan(b) && a < 0x8000_0000_0000_0000 && b < 0x8000_0000_0000_0000 ==> (less(
            a,
            b,
        ) <==> a < b),
        !nan(a) && !nan(b) && a >= 0x8000_0000_0000_0000 && b >= 0x8000_0000_0000_0000 ==> (less(
            a,
            b,
        ) <==> a > b),
        !nan(a) && !nan(b) && a >= 0x8000_0000_0000_0000 && b < 0x8000_0000_0000_0000 ==> (less(
            a,
            b,
        ) <==> a > 0x8000_0000_0000_0000 || b > 0),
        !nan(a) && !nan(b) && a < 0x8000_0000_0000_0000 && b >= 0x8000_0000_0000_0000 ==> !less(
            a,
            b,
        ),
        !nan(a) && !nan(b) ==> (less(a, b) <==> rank(a) < rank(b)),
        nan(NAN),
        ONE == 0x3ff0_0000_0000_0000,
{
}

} // verus!
