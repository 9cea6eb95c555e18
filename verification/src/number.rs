//! Numbers of the language are IEEE-754 doubles. The library holds a number
//! as its 64 bits and never rounds: sums, differences, products and quotients
//! are computed by the host. What can be read off the bits exactly is decided
//! here: sign, zero, not-a-number, equality and order.
use vstd::prelude::*;

verus! {

/// The sign bit of a double.
pub const SIGN: u64 = 0x8000_0000_0000_0000;

/// The bits of positive infinity: every larger magnitude is not a number.
pub const INFINITY: u64 = 0x7FF0_0000_0000_0000;

/// The bits without the sign.
pub open spec fn magnitude(bits: u64) -> u64 {
    if bits >= SIGN {
        (bits - SIGN) as u64
    } else {
        bits
    }
}

/// Whether the bits are those of a not-a-number: a magnitude above
/// infinity.
pub open spec fn is_nan(bits: u64) -> bool {
    magnitude(bits) > INFINITY
}

/// Positive or negative zero.
pub open spec fn is_zero(bits: u64) -> bool {
    magnitude(bits) == 0
}

/// An integer that orders the doubles that are numbers as their values do:
/// the magnitude, negated under the sign bit. Both zeros have ordinal 0.
pub open spec fn ordinal(bits: u64) -> int {
    if bits >= SIGN {
        -(magnitude(bits) as int)
    } else {
        magnitude(bits) as int
    }
}

/// Equality of doubles: not-a-number equals nothing, the two zeros are equal.
pub open spec fn number_eq(a: u64, b: u64) -> bool {
    !is_nan(a) && !is_nan(b) && ordinal(a) == ordinal(b)
}

/// Strict order of doubles: false when either side is not a number.
pub open spec fn number_lt(a: u64, b: u64) -> bool {
    !is_nan(a) && !is_nan(b) && ordinal(a) < ordinal(b)
}

/// Order of doubles: false when either side is not a number.
pub open spec fn number_le(a: u64, b: u64) -> bool {
    !is_nan(a) && !is_nan(b) && ordinal(a) <= ordinal(b)
}

/// The double with the opposite sign.
pub open spec fn negated(bits: u64) -> u64 {
    if bits >= SIGN {
        (bits - SIGN) as u64
    } else {
        (bits + SIGN) as u64
    }
}

/// The bits without the sign.
pub fn magnitude_of(bits: u64) -> (r: u64)
    ensures
        r == magnitude(bits),
{
    if bits >= SIGN {
        bits - SIGN
    } else {
        bits
    }
}

/// Whether the bits are those of a not-a-number.
pub fn nan(bits: u64) -> (r: bool)
    ensures
        r == is_nan(bits),
{
    magnitude_of(bits) > INFINITY
}

/// Whether the bits are those of positive or negative zero.
pub fn zero(bits: u64) -> (r: bool)
    ensures
        r == is_zero(bits),
{
    magnitude_of(bits) == 0
}

/// Equality of doubles.
pub fn equal(a: u64, b: u64) -> (r: bool)
    ensures
        r == number_eq(a, b),
{
    if nan(a) || nan(b) {
        false
    } else {
        a == b || (zero(a) && zero(b))
    }
}

/// Strict order of doubles.
pub fn less(a: u64, b: u64) -> (r: bool)
    ensures
        r == number_lt(a, b),
{
    if nan(a) || nan(b) {
        false
    } else if a >= SIGN {
        if b >= SIGN {
            magnitude_of(a) > magnitude_of(b)
        } else {
            !(zero(a) && zero(b))
        }
    } else {
        if b >= SIGN {
            false
        } else {
            a < b
        }
    }
}

/// Order of doubles.
pub fn less_equal(a: u64, b: u64) -> (r: bool)
    ensures
        r == number_le(a, b),
{
    if nan(a) || nan(b) {
        false
    } else {
        !less(b, a)
    }
}

/// The double with the opposite sign.
pub fn negate(bits: u64) -> (r: u64)
    ensures
        r == negated(bits),
{
    if bits >= SIGN {
        bits - SIGN
    } else {
        bits + SIGN
    }
}

/// Negating twice gives the number back.
pub proof fn negating_twice_gives_the_number_back(bits: u64)
    ensures
        negated(negated(bits)) == bits,
{
}

/// A number other than not-a-number equals itself and is not less than
/// itself; less-or-equal is less or equal; no two numbers are each less
/// than the other; the two zeros are equal.
pub proof fn numbers_are_ordered(a: u64, b: u64)
    ensures
        !is_nan(a) ==> number_eq(a, a) && !number_lt(a, a),
        number_le(a, b) <==> (number_lt(a, b) || number_eq(a, b)),
        !(number_lt(a, b) && number_lt(b, a)),
        is_zero(a) && is_zero(b) ==> number_eq(a, b),
{
}

} // verus!
