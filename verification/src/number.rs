//! Double-precision numbers as 64-bit patterns: sign bit, eleven exponent
//! bits, fifty-two fraction bits.

use vstd::prelude::*;

verus! {

/// The value of the sign bit.
pub const SIGN: u64 = 0x8000_0000_0000_0000;

/// The magnitude of positive infinity; every larger magnitude is a NaN.
pub const INFINITY: u64 = 0x7ff0_0000_0000_0000;

/// The four operations that the caller computes for the machine.
#[derive(Clone, Copy, Debug, PartialEq, Eq, Structural)]
pub enum Arithmetic {
    Add,
    Subtract,
    Multiply,
    Divide,
}

/// The pattern without its sign bit.
pub open spec fn magnitude_spec(bits: u64) -> u64 {
    if bits >= SIGN {
        (bits - SIGN) as u64
    } else {
        bits
    }
}

/// Whether the pattern is not a number.
pub open spec fn is_nan_spec(bits: u64) -> bool {
    magnitude_spec(bits) > INFINITY
}

/// The position of a pattern that is a number on the number line: patterns
/// with the sign bit run downwards from zero, both zeros share one position.
pub open spec fn position(bits: u64) -> int {
    if bits >= SIGN {
        -(magnitude_spec(bits) as int)
    } else {
        magnitude_spec(bits) as int
    }
}

/// Numeric equality: no NaN equals anything, the two zeros are equal.
pub open spec fn equal_spec(a: u64, b: u64) -> bool {
    !is_nan_spec(a) && !is_nan_spec(b) && position(a) == position(b)
}

/// Numeric order: false whenever a NaN is involved.
pub open spec fn less_spec(a: u64, b: u64) -> bool {
    !is_nan_spec(a) && !is_nan_spec(b) && position(a) < position(b)
}

/// The pattern with its sign bit flipped.
pub open spec fn negate_spec(bits: u64) -> u64 {
    if bits >= SIGN {
        (bits - SIGN) as u64
    } else {
        (bits + SIGN) as u64
    }
}

pub fn magnitude(bits: u64) -> (r: u64)
    ensures
        r == magnitude_spec(bits),
        r < SIGN,
{
    if bits >= SIGN {
        bits - SIGN
    } else {
        bits
    }
}

pub fn is_nan(bits: u64) -> (r: bool)
    ensures
        r == is_nan_spec(bits),
{
    magnitude(bits) > INFINITY
}

pub fn equal(a: u64, b: u64) -> (r: bool)
    ensures
        r == equal_spec(a, b),
{
    if is_nan(a) || is_nan(b) {
        false
    } else if magnitude(a) == 0 {
        magnitude(b) == 0
    } else {
        a == b
    }
}

pub fn less(a: u64, b: u64) -> (r: bool)
    ensures
        r == less_spec(a, b),
{
    if is_nan(a) || is_nan(b) {
        false
    } else if a >= SIGN {
        if b >= SIGN {
            magnitude(a) > magnitude(b)
        } else {
            magnitude(a) > 0 || magnitude(b) > 0
        }
    } else {
        b < SIGN && a < b
    }
}

pub fn greater(a: u64, b: u64) -> (r: bool)
    ensures
        r == less_spec(b, a),
{
    less(b, a)
}

pub fn negate(bits: u64) -> (r: u64)
    ensures
        r == negate_spec(bits),
{
    if bits >= SIGN {
        bits - SIGN
    } else {
        bits + SIGN
    }
}

} // verus!
