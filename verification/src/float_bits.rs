//! The order of double-precision numbers, read off their IEEE 754 bit patterns.
//!
//! Latencies, costs and token counts travel through the library as the bit
//! patterns of doubles. Arithmetic on them is the caller's; comparing them is
//! done here, on the integers.

use vstd::prelude::*;

verus! {

/// The bit that holds the sign.
pub const SIGN_BIT: u64 = 0x8000_0000_0000_0000;

/// The bit pattern of infinity; a magnitude above it is not a number.
pub const INFINITY_BITS: u64 = 0x7ff0_0000_0000_0000;

/// The bit pattern of one.
pub const ONE_BITS: u64 = 0x3ff0_0000_0000_0000;

/// The pattern without its sign.
pub open spec fn magnitude(bits: u64) -> int {
    if bits >= SIGN_BIT {
        bits - SIGN_BIT
    } else {
        bits as int
    }
}

/// Whether the pattern is that of a number.
pub open spec fn is_number(bits: u64) -> bool {
    magnitude(bits) <= INFINITY_BITS
}

/// The place of a pattern among the numbers: patterns of the same number (the
/// two zeros) share one place.
pub open spec fn place(bits: u64) -> int {
    if bits >= SIGN_BIT {
        -magnitude(bits)
    } else {
        magnitude(bits)
    }
}

/// `a` is a number below the number `b`.
pub open spec fn less(a: u64, b: u64) -> bool {
    is_number(a) && is_number(b) && place(a) < place(b)
}

/// `a` is zero, of either sign.
pub open spec fn is_zero(a: u64) -> bool {
    place(a) == 0
}

/// The smaller of `a` and `b`; where one of them is not a number, the other.
pub open spec fn smaller(a: u64, b: u64) -> u64 {
    if !is_number(a) {
        b
    } else if less(b, a) {
        b
    } else {
        a
    }
}

/// Whether `a` is a number below the number `b`.
pub fn is_less(a: u64, b: u64) -> (r: bool)
    ensures
        r == less(a, b),
{
    let x: u64 = if a >= SIGN_BIT {
        a - SIGN_BIT
    } else {
        a
    };
    let y: u64 = if b >= SIGN_BIT {
        b - SIGN_BIT
    } else {
        b
    };
    if x > INFINITY_BITS || y > INFINITY_BITS {
        false
    } else if a >= SIGN_BIT {
        if b >= SIGN_BIT {
            x > y
        } else {
            x > 0 || y > 0
        }
    } else {
        b < SIGN_BIT && x < y
    }
}

/// Whether `a` is a number at or above the number `b`.
pub fn is_at_least(a: u64, b: u64) -> (r: bool)
    ensures
        r == (is_number(a) && is_number(b) && place(a) >= place(b)),
{
    !is_less(a, b) && is_a_number(a) && is_a_number(b)
}

/// Whether `a` is zero, of either sign.
pub fn is_zero_bits(a: u64) -> (r: bool)
    ensures
        r == is_zero(a),
{
    a == 0 || a == SIGN_BIT
}

/// Whether the pattern is that of a number.
pub fn is_a_number(a: u64) -> (r: bool)
    ensures
        r == is_number(a),
{
    if a >= SIGN_BIT {
        a - SIGN_BIT <= INFINITY_BITS
    } else {
        a <= INFINITY_BITS
    }
}

/// The smaller of `a` and `b`; where one of them is not a number, the other.
pub fn min_bits(a: u64, b: u64) -> (r: u64)
    ensures
        r == smaller(a, b),
{
    if !is_a_number(a) {
        b
    } else if is_less(b, a) {
        b
    } else {
        a
    }
}

/// Numbers are totally ordered by `less`, the two zeros taken as one number.
pub proof fn less_orders_numbers(a: u64, b: u64, c: u64)
    requires
        is_number(a),
        is_number(b),
        is_number(c),
    ensures
        !less(a, a),
        less(a, b) || less(b, a) || place(a) == place(b),
        less(a, b) && less(b, c) ==> less(a, c),
        less(a, b) ==> !less(b, a),
{
}

/// The smaller of two numbers is at or below both.
pub proof fn smaller_is_a_lower_bound(a: u64, b: u64)
    requires
        is_number(b),
    ensures
        is_number(smaller(a, b)),
        place(smaller(a, b)) <= place(b),
        is_number(a) ==> place(smaller(a, b)) <= place(a),
{
}

/// The patterns up to `0x7ff0000000000000` are the numbers from zero up, in ascending
/// order, and the same patterns with the sign bit are those from zero down, in descending
/// order; any other pattern is no number, and neither below nor above anything.
pub proof fn patterns_are_in_order(a: u64, b: u64)
    ensures
        a <= 0x7ff0_0000_0000_0000 && b <= 0x7ff0_0000_0000_0000 ==> (less(a, b) <==> a < b),
        0x8000_0000_0000_0000 <= a <= 0xfff0_0000_0000_0000 && 0x8000_0000_0000_0000 <= b
            <= 0xfff0_0000_0000_0000 ==> (less(a, b) <==> b < a),
        0x8000_0000_0000_0000 <= a <= 0xfff0_0000_0000_0000 && b <= 0x7ff0_0000_0000_0000 ==> (
        less(a, b) <==> !(a == 0x8000_0000_0000_0000 && b == 0)) && !less(b, a),
        0x7ff0_0000_0000_0000 < a < 0x8000_0000_0000_0000 || 0xfff0_0000_0000_0000 < a ==> !less(
            a,
            b,
        ) && !less(b, a) && !is_number(a),
        a <= 0x7ff0_0000_0000_0000 || 0x8000_0000_0000_0000 <= a <= 0xfff0_0000_0000_0000
            ==> is_number(a),
        is_zero(a) <==> a == 0 || a == 0x8000_0000_0000_0000,
{
}

/// The smaller of two patterns is one of them; of two numbers it is one that the other is
/// not below, and no number gives way to what is none.
pub proof fn smaller_is_one_of_the_two(a: u64, b: u64)
    ensures
        smaller(a, b) == a || smaller(a, b) == b,
        is_number(a) && is_number(b) ==> !less(a, smaller(a, b)) && !less(b, smaller(a, b)),
        is_number(a) && !is_number(b) ==> smaller(a, b) == a,
        is_number(b) && !is_number(a) ==> smaller(a, b) == b,
{
}

} // verus!
