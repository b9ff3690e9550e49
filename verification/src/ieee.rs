//! IEEE 754 floating-point numbers as their bit patterns.
//!
//! Among non-negative numbers, the order of the values is the order of the
//! bit patterns; negative zero counts as zero.
use vstd::prelude::*;

verus! {

/// The bits of a number without its sign.
pub open spec fn magnitude32(bits: u32) -> u32 {
    bits % 0x8000_0000
}

/// The bits of a number without its sign.
pub open spec fn magnitude64(bits: u64) -> u64 {
    bits % 0x8000_0000_0000_0000
}

/// The number is a percentage: finite, not below 0 and not above 100.
pub open spec fn is_percent(bits: u32) -> bool {
    bits <= 0x42C8_0000 || bits == 0x8000_0000
}

/// The number is finite and above zero.
pub open spec fn is_positive(bits: u64) -> bool {
    0 < bits < 0x7FF0_0000_0000_0000
}

/// The number is finite and not below zero.
pub open spec fn is_non_negative(bits: u64) -> bool {
    bits < 0x7FF0_0000_0000_0000 || bits == 0x8000_0000_0000_0000
}

pub fn magnitude_of32(bits: u32) -> (result: u32)
    ensures
        result == magnitude32(bits),
{
    bits % 0x8000_0000
}

pub fn magnitude_of64(bits: u64) -> (result: u64)
    ensures
        result == magnitude64(bits),
{
    bits % 0x8000_0000_0000_0000
}

pub fn percent(bits: Option<u32>) -> (result: Option<u32>)
    ensures
        result == match bits {
            Some(v) => if is_percent(v) {
                Some(v)
            } else {
                None
            },
            None => None,
        },
{
    match bits {
        Some(v) => if v <= 0x42C8_0000 || v == 0x8000_0000 {
            Some(v)
        } else {
            None
        },
        None => None,
    }
}

pub fn non_negative(bits: u64) -> (result: bool)
    ensures
        result == is_non_negative(bits),
{
    bits < 0x7FF0_0000_0000_0000 || bits == 0x8000_0000_0000_0000
}

/// A quotient, rounded to the nearest whole number, and to the even one of two
/// that are equally near.
pub open spec fn nearest(n: int, d: int) -> int {
    let down = n / d;
    let rest = n % d;
    if 2 * rest < d || (2 * rest == d && down % 2 == 0) {
        down
    } else {
        down + 1
    }
}

/// A quotient, rounded to the nearest whole number.
pub fn nearest_quotient(n: u128, d: u64) -> (result: u128)
    requires
        d > 0,
        n < u128::MAX,
    ensures
        result == nearest(n as int, d as int),
{
    let divisor: u128 = d as u128;
    let down: u128 = n / divisor;
    let rest: u128 = n % divisor;
    proof {
        assert(n / divisor <= n) by (nonlinear_arith)
            requires
                divisor >= 1,
        ;
    }
    if 2 * rest < divisor || (2 * rest == divisor && down % 2 == 0) {
        down
    } else {
        down + 1
    }
}

/// The bits stand for no number.
pub open spec fn is_nan(bits: u64) -> bool {
    magnitude64(bits) > 0x7FF0_0000_0000_0000
}

/// The number is neither infinite nor none at all.
pub open spec fn is_finite(bits: u64) -> bool {
    magnitude64(bits) < 0x7FF0_0000_0000_0000
}

/// The number is neither infinite nor none at all.
pub open spec fn is_finite32(bits: u32) -> bool {
    magnitude32(bits) < 0x7F80_0000
}

/// A whole number in whose order the numbers are.
pub open spec fn position(bits: u64) -> int {
    if bits >= 0x8000_0000_0000_0000 {
        -(magnitude64(bits) as int)
    } else {
        bits as int
    }
}

/// The first number is less than the second. Where one is no number, it is not.
pub open spec fn below(a: u64, b: u64) -> bool {
    !is_nan(a) && !is_nan(b) && position(a) < position(b)
}

/// The first number is not less than the second. Where one is no number, it is
/// neither.
pub open spec fn reaches(a: u64, b: u64) -> bool {
    !is_nan(a) && !is_nan(b) && position(a) >= position(b)
}

/// A whole number in whose total order the bits are: negative zero is before
/// zero, and what is no number comes first or last, by its sign.
pub open spec fn total_position(bits: u64) -> int {
    if bits >= 0x8000_0000_0000_0000 {
        -(magnitude64(bits) as int) - 1
    } else {
        bits as int
    }
}

/// A whole number in whose total order the bits are: negative zero is before
/// zero, and what is no number comes first or last, by its sign.
pub open spec fn total_position32(bits: u32) -> int {
    if bits >= 0x8000_0000 {
        -(magnitude32(bits) as int) - 1
    } else {
        bits as int
    }
}

/// The first bits come before the second in the total order.
pub fn before_in_total32(a: u32, b: u32) -> (result: bool)
    ensures
        result == (total_position32(a) < total_position32(b)),
{
    let sign: u32 = 0x8000_0000;
    if a >= sign {
        if b >= sign {
            a % sign > b % sign
        } else {
            true
        }
    } else {
        b < sign && a < b
    }
}

/// The bits stand for no number.
pub fn nan(bits: u64) -> (result: bool)
    ensures
        result == is_nan(bits),
{
    bits % 0x8000_0000_0000_0000 > 0x7FF0_0000_0000_0000
}

/// The number is neither infinite nor none at all.
pub fn finite(bits: u64) -> (result: bool)
    ensures
        result == is_finite(bits),
{
    bits % 0x8000_0000_0000_0000 < 0x7FF0_0000_0000_0000
}

/// The number is neither infinite nor none at all.
pub fn finite32(bits: u32) -> (result: bool)
    ensures
        result == is_finite32(bits),
{
    bits % 0x8000_0000 < 0x7F80_0000
}

/// Compares by whole numbers in whose order the numbers are.
fn position_below(a: u64, b: u64) -> (result: bool)
    ensures
        result == (position(a) < position(b)),
{
    let sign: u64 = 0x8000_0000_0000_0000;
    if a >= sign {
        if b >= sign {
            a % sign > b % sign
        } else {
            a % sign > 0 || b > 0
        }
    } else if b >= sign {
        false
    } else {
        a < b
    }
}

/// The first number is less than the second.
pub fn less(a: u64, b: u64) -> (result: bool)
    ensures
        result == below(a, b),
{
    !nan(a) && !nan(b) && position_below(a, b)
}

/// The first number is not less than the second.
pub fn at_least(a: u64, b: u64) -> (result: bool)
    ensures
        result == reaches(a, b),
{
    !nan(a) && !nan(b) && !position_below(a, b)
}

/// The first bits come before the second in the total order.
pub fn before_in_total(a: u64, b: u64) -> (result: bool)
    ensures
        result == (total_position(a) < total_position(b)),
{
    let sign: u64 = 0x8000_0000_0000_0000;
    if a >= sign {
        if b >= sign {
            a % sign > b % sign
        } else {
            true
        }
    } else if b >= sign {
        false
    } else {
        a < b
    }
}

/// The order of numbers by their bits: those with a plus sign grow with their
/// bits, those with a minus sign fall, every number with a minus sign that is
/// not zero is below those with a plus sign, the two zeros are equal, and what
/// is no number is neither below nor not below anything.
pub proof fn law_bits_are_ordered_as_numbers(a: u64, b: u64)
    ensures
        a <= 0x7FF0_0000_0000_0000 && b <= 0x7FF0_0000_0000_0000 ==> below(a, b) == (a < b),
        0x8000_0000_0000_0000 <= a <= 0xFFF0_0000_0000_0000 && 0x8000_0000_0000_0000 <= b
            <= 0xFFF0_0000_0000_0000 ==> below(a, b) == (a > b),
        0x8000_0000_0000_0000 < a <= 0xFFF0_0000_0000_0000 && b <= 0x7FF0_0000_0000_0000
            ==> below(a, b),
        a <= 0x7FF0_0000_0000_0000 && 0x8000_0000_0000_0000 <= b ==> !below(a, b),
        !below(0x8000_0000_0000_0000, 0) && !below(0, 0x8000_0000_0000_0000),
        0x7FF0_0000_0000_0000 < a < 0x8000_0000_0000_0000 || a > 0xFFF0_0000_0000_0000
            ==> !below(a, b) && !below(b, a) && !reaches(a, b) && !reaches(b, a),
        is_finite(a) == (a < 0x7FF0_0000_0000_0000 || 0x8000_0000_0000_0000 <= a
            < 0xFFF0_0000_0000_0000),
        is_nan(a) == (0x7FF0_0000_0000_0000 < a < 0x8000_0000_0000_0000 || a
            > 0xFFF0_0000_0000_0000),
{
}

/// Of two numbers one is less, or they are equal in the order.
pub proof fn law_numbers_are_ordered(a: u64, b: u64)
    requires
        !is_nan(a),
        !is_nan(b),
    ensures
        below(a, b) || below(b, a) || position(a) == position(b),
        !(below(a, b) && below(b, a)),
        reaches(a, b) == !below(a, b),
{
}

/// A rounded quotient is off by half at most, and where two whole numbers are
/// equally near it is the even one.
pub proof fn law_rounding_is_to_the_nearest(n: int, d: int)
    requires
        n >= 0,
        d > 0,
    ensures
        2 * nearest(n, d) * d <= 2 * n + d,
        2 * nearest(n, d) * d >= 2 * n - d,
        2 * nearest(n, d) * d == 2 * n + d || 2 * nearest(n, d) * d == 2 * n - d ==> nearest(n, d)
            % 2 == 0,
        n % d == 0 ==> nearest(n, d) * d == n,
{
    let down = n / d;
    let rest = n % d;
    vstd::arithmetic::div_mod::lemma_fundamental_div_mod(n, d);
    assert(n == d * down + rest);
    assert((down + 1) * d == d * down + d) by (nonlinear_arith);
    assert(down * d == d * down) by (nonlinear_arith);
    assert(2 * down * d == 2 * (d * down)) by (nonlinear_arith);
    assert(2 * (down + 1) * d == 2 * (d * down) + 2 * d) by (nonlinear_arith);
    assert(0 <= rest < d);
}

/// What counts as a percentage is a number from 0 to 100, and what counts as
/// positive or not negative is finite.
pub proof fn law_readings_are_numbers(load: u32, time: u64)
    ensures
        is_percent(load) ==> magnitude32(load) <= 0x42C8_0000,
        load <= 0x42C8_0000 ==> is_percent(load) && magnitude32(load) == load,
        0x42C8_0000 < load < 0x8000_0000 ==> !is_percent(load),
        load > 0x8000_0000 ==> !is_percent(load),
        is_positive(time) ==> is_non_negative(time) && is_finite(time) && below(0, time),
        is_non_negative(time) ==> is_finite(time) && !below(time, 0),
        below(0, time) && is_finite(time) ==> is_positive(time),
{
}

} // verus!
